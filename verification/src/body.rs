//! Request-body fields as the handlers read them, and the decimal text of
//! integers used in field messages.
use vstd::prelude::*;

verus! {

/// A body field holding text (or not).
#[derive(Debug, Clone)]
pub enum FieldValue {
    /// The key is missing.
    Missing,
    /// The key holds `null`.
    Null,
    /// The key holds a string.
    Text(String),
    /// The key holds a number, boolean, array or object.
    Other,
}

/// A body field holding an integer (or not).
#[derive(Debug, Clone, Copy)]
pub enum IntValue {
    /// The key is missing.
    Missing,
    /// The key holds `null`.
    Null,
    /// The key holds a number that is an `i64`.
    Int(i64),
    /// The key holds anything else (a fraction, a larger number, text,
    /// a boolean, an array or an object).
    Other,
}

/// The character of a decimal digit.
pub open spec fn digit_char(d: int) -> char {
    if d == 0 {
        '0'
    } else if d == 1 {
        '1'
    } else if d == 2 {
        '2'
    } else if d == 3 {
        '3'
    } else if d == 4 {
        '4'
    } else if d == 5 {
        '5'
    } else if d == 6 {
        '6'
    } else if d == 7 {
        '7'
    } else if d == 8 {
        '8'
    } else {
        '9'
    }
}

/// Decimal digits of `n`, most significant first, without leading zeros.
pub open spec fn nat_digits(n: nat) -> Seq<char>
    decreases n,
{
    if n < 10 {
        seq![digit_char(n as int)]
    } else {
        nat_digits(n / 10).push(digit_char((n % 10) as int))
    }
}

/// Decimal text of `v` (a leading `-` when negative).
pub open spec fn int_text(v: int) -> Seq<char> {
    if v < 0 {
        seq!['-'] + nat_digits((-v) as nat)
    } else {
        nat_digits(v as nat)
    }
}

fn digit_char_exec(d: u64) -> (c: char)
    requires
        d < 10,
    ensures
        c == digit_char(d as int),
{
    if d == 0 {
        '0'
    } else if d == 1 {
        '1'
    } else if d == 2 {
        '2'
    } else if d == 3 {
        '3'
    } else if d == 4 {
        '4'
    } else if d == 5 {
        '5'
    } else if d == 6 {
        '6'
    } else if d == 7 {
        '7'
    } else if d == 8 {
        '8'
    } else {
        '9'
    }
}

fn push_digits(out: &mut Vec<char>, n: u64)
    ensures
        final(out)@ == old(out)@ + nat_digits(n as nat),
    decreases n,
{
    if n >= 10 {
        push_digits(out, n / 10);
    }
    out.push(digit_char_exec(n % 10));
    proof {
        if n >= 10 {
            assert(old(out)@ + nat_digits(n as nat) =~= old(out)@ + nat_digits((n / 10) as nat)
                + seq![digit_char((n % 10) as int)]);
        }
    }
}

/// Decimal text of an integer.
pub fn int_to_text(v: i64) -> (r: Vec<char>)
    ensures
        r@ == int_text(v as int),
{
    let mut out: Vec<char> = Vec::new();
    if v < 0 {
        out.push('-');
        let m: u64 = if v == i64::MIN {
            9223372036854775808u64
        } else {
            (0 - v) as u64
        };
        push_digits(&mut out, m);
    } else {
        push_digits(&mut out, v as u64);
    }
    out
}

} // verus!

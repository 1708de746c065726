//! Search helpers: the entity list of a global search, the `LIKE`
//! pattern of a query and the integer tokens matched against issue
//! sequence ids.
use vstd::prelude::*;

use crate::text::{
    chars_of, split_char, split_pieces, str_in, str_listed, string_of, string_views, trim,
    trim_chars, views,
};

verus! {

broadcast use vstd::string::group_string_axioms;

/// Every searchable entity, in response order.
pub const SEARCH_ENTITIES: [&'static str; 8] = [
    "workspace",
    "project",
    "issue",
    "cycle",
    "module",
    "issue_view",
    "page",
    "intake",
];

/// The trimmed pieces that name a searchable entity, in order.
pub open spec fn listed_entities(pieces: Seq<Seq<char>>) -> Seq<Seq<char>>
    decreases pieces.len(),
{
    if pieces.len() == 0 {
        Seq::empty()
    } else {
        let t = trim(pieces[0]);
        (if str_listed(SEARCH_ENTITIES@, t) {
            seq![t]
        } else {
            Seq::empty()
        }) + listed_entities(pieces.drop_first())
    }
}

/// All entity names.
pub open spec fn all_entities() -> Seq<Seq<char>> {
    SEARCH_ENTITIES@.map_values(|e: &str| e@)
}

/// Spec of `parse_entities`.
pub open spec fn spec_parse_entities(param: Option<Seq<char>>) -> Seq<Seq<char>> {
    match param {
        Some(p) => {
            let picked = listed_entities(split_char(p, ','));
            if picked.len() == 0 {
                all_entities()
            } else {
                picked
            }
        },
        None => all_entities(),
    }
}

fn all_entities_exec() -> (r: Vec<String>)
    ensures
        string_views(r@) == all_entities(),
{
    let mut r: Vec<String> = Vec::new();
    let mut i: usize = 0;
    while i < 8
        invariant
            i <= 8,
            string_views(r@) == all_entities().take(i as int),
        decreases 8 - i,
    {
        let ghost before = r@;
        r.push(SEARCH_ENTITIES[i].to_owned());
        proof {
            assert(all_entities().take(i + 1) =~= all_entities().take(i as int).push(
                SEARCH_ENTITIES@[i as int]@,
            ));
            assert(string_views(r@) =~= string_views(before).push(SEARCH_ENTITIES@[i as int]@));
        }
        i = i + 1;
    }
    proof {
        assert(all_entities().take(8) =~= all_entities());
    }
    r
}

proof fn lemma_listed_cons(a: Seq<char>, rest: Seq<Seq<char>>)
    ensures
        listed_entities(seq![a] + rest) == (if str_listed(SEARCH_ENTITIES@, trim(a)) {
            seq![trim(a)]
        } else {
            Seq::<Seq<char>>::empty()
        }) + listed_entities(rest),
{
    let p = seq![a] + rest;
    assert(p[0] == a);
    assert(p.drop_first() =~= rest);
}

/// Entities a global search covers: the known names among the
/// comma-separated `?entities=` (trimmed, in order), or all of them when
/// none is known or the parameter is absent.
pub fn parse_entities(param: Option<&str>) -> (r: Vec<String>)
    ensures
        string_views(r@) == spec_parse_entities(
            match param {
                Some(p) => Some(p@),
                None => None,
            },
        ),
{
    match param {
        None => all_entities_exec(),
        Some(p) => {
            let v = chars_of(p);
            let pieces = split_pieces(&v, ',');
            let ghost all = views(pieces@);
            let mut picked: Vec<String> = Vec::new();
            let mut i: usize = 0;
            let list: &[&str] = &SEARCH_ENTITIES;
            assert(list@ == SEARCH_ENTITIES@);
            assert(all.subrange(0, all.len() as int) =~= all);
            while i < pieces.len()
                invariant
                    i <= pieces@.len(),
                    all == views(pieces@),
                    all == split_char(p@, ','),
                    list@ == SEARCH_ENTITIES@,
                    listed_entities(all) == string_views(picked@) + listed_entities(
                        all.subrange(i as int, all.len() as int),
                    ),
                decreases pieces.len() - i,
            {
                let t = trim_chars(&pieces[i]);
                let ts = string_of(&t);
                let ghost before = picked@;
                proof {
                    let sub = all.subrange(i as int, all.len() as int);
                    assert(sub =~= seq![all[i as int]] + all.subrange(i + 1, all.len() as int));
                    lemma_listed_cons(all[i as int], all.subrange(i + 1, all.len() as int));
                }
                if str_in(list, ts.as_str()) {
                    picked.push(ts);
                    proof {
                        assert(string_views(picked@) =~= string_views(before) + seq![t@]);
                    }
                } else {
                    proof {
                        assert(string_views(picked@) =~= string_views(before) + Seq::<
                            Seq<char>,
                        >::empty());
                    }
                }
                i = i + 1;
            }
            proof {
                assert(all.subrange(all.len() as int, all.len() as int) =~= Seq::<
                    Seq<char>,
                >::empty());
                assert(string_views(picked@) + Seq::<Seq<char>>::empty() =~= string_views(
                    picked@,
                ));
            }
            if picked.len() == 0 {
                all_entities_exec()
            } else {
                picked
            }
        },
    }
}

/// `q` without `%` and `_`.
pub open spec fn without_wildcards(q: Seq<char>) -> Seq<char>
    decreases q.len(),
{
    if q.len() == 0 {
        Seq::empty()
    } else {
        let rest = without_wildcards(q.drop_last());
        if q.last() == '%' || q.last() == '_' {
            rest
        } else {
            rest.push(q.last())
        }
    }
}

/// Spec of `like_pattern`.
pub open spec fn spec_like_pattern(query: Option<Seq<char>>) -> Seq<char> {
    match query {
        Some(q) if trim(q).len() > 0 => "%"@ + without_wildcards(q) + "%"@,
        _ => "%"@,
    }
}

/// `LIKE` pattern of a search query: `%<query without % and _>%`, or `%`
/// for a blank or absent query.
pub fn like_pattern(query: Option<&str>) -> (r: String)
    ensures
        r@ == spec_like_pattern(
            match query {
                Some(q) => Some(q@),
                None => None,
            },
        ),
{
    match query {
        Some(q) => {
            let v = chars_of(q);
            if trim_chars(&v).len() == 0 {
                return "%".to_owned();
            }
            let mut out: Vec<char> = Vec::new();
            out.push('%');
            let mut i: usize = 0;
            while i < v.len()
                invariant
                    i <= v@.len(),
                    out@ == seq!['%'] + without_wildcards(v@.take(i as int)),
                decreases v.len() - i,
            {
                proof {
                    assert(v@.take(i + 1).drop_last() =~= v@.take(i as int));
                }
                if v[i] != '%' && v[i] != '_' {
                    out.push(v[i]);
                }
                proof {
                    assert(out@ =~= seq!['%'] + without_wildcards(v@.take(i + 1)));
                }
                i = i + 1;
            }
            out.push('%');
            proof {
                reveal_strlit("%");
                assert(v@.take(v@.len() as int) =~= v@);
                assert(out@ =~= "%"@ + without_wildcards(q@) + "%"@);
            }
            string_of(&out)
        },
        None => "%".to_owned(),
    }
}

/// An ASCII digit.
pub open spec fn is_digit(c: char) -> bool {
    48 <= c as u32 <= 57
}

/// First digit at or after `i` (or the length).
pub open spec fn skip_nondigits(s: Seq<char>, i: int) -> int
    decreases s.len() - i,
{
    if i < 0 || i >= s.len() {
        s.len() as int
    } else if is_digit(s[i]) {
        i
    } else {
        skip_nondigits(s, i + 1)
    }
}

/// First non-digit at or after `i` (or the length).
pub open spec fn digits_end(s: Seq<char>, i: int) -> int
    decreases s.len() - i,
{
    if i < 0 || i >= s.len() {
        s.len() as int
    } else if !is_digit(s[i]) {
        i
    } else {
        digits_end(s, i + 1)
    }
}

pub proof fn lemma_skip_nondigits(s: Seq<char>, i: int)
    requires
        0 <= i <= s.len(),
    ensures
        i <= skip_nondigits(s, i) <= s.len(),
        skip_nondigits(s, i) < s.len() ==> is_digit(s[skip_nondigits(s, i)]),
    decreases s.len() - i,
{
    if i < s.len() && !is_digit(s[i]) {
        lemma_skip_nondigits(s, i + 1);
    }
}

pub proof fn lemma_digits_end(s: Seq<char>, i: int)
    requires
        0 <= i <= s.len(),
    ensures
        i <= digits_end(s, i) <= s.len(),
        i < s.len() && is_digit(s[i]) ==> i < digits_end(s, i),
        forall|k: int| i <= k < digits_end(s, i) ==> is_digit(#[trigger] s[k]),
    decreases s.len() - i,
{
    if i < s.len() && is_digit(s[i]) {
        lemma_digits_end(s, i + 1);
    }
}

/// The maximal runs of ASCII digits of `s[i..]`, in order (the non-empty
/// pieces of splitting on every non-digit).
pub open spec fn digit_runs_from(s: Seq<char>, i: int) -> Seq<Seq<char>>
    decreases s.len() - i,
{
    if i < 0 || i >= s.len() {
        Seq::empty()
    } else {
        let j = skip_nondigits(s, i);
        if j >= s.len() {
            Seq::empty()
        } else {
            proof {
                lemma_skip_nondigits(s, i);
                lemma_digits_end(s, j);
            }
            let k = digits_end(s, j);
            seq![s.subrange(j, k)] + digit_runs_from(s, k)
        }
    }
}

/// Decimal value of a digit string.
pub open spec fn dec_value(d: Seq<char>) -> int
    decreases d.len(),
{
    if d.len() == 0 {
        0
    } else {
        dec_value(d.drop_last()) * 10 + (d.last() as u32 - 48)
    }
}

/// The runs whose value fits an `i64`, as values.
pub open spec fn fitting_values(runs: Seq<Seq<char>>) -> Seq<i64>
    decreases runs.len(),
{
    if runs.len() == 0 {
        Seq::empty()
    } else {
        (if dec_value(runs[0]) <= i64::MAX {
            seq![dec_value(runs[0]) as i64]
        } else {
            Seq::empty()
        }) + fitting_values(runs.drop_first())
    }
}

/// Spec of `integer_tokens`.
pub open spec fn spec_integer_tokens(query: Option<Seq<char>>) -> Seq<i64> {
    match query {
        Some(q) => fitting_values(digit_runs_from(q, 0)),
        None => Seq::empty(),
    }
}

proof fn lemma_dec_value_nonneg(d: Seq<char>)
    requires
        forall|k: int| 0 <= k < d.len() ==> is_digit(#[trigger] d[k]),
    ensures
        dec_value(d) >= 0,
    decreases d.len(),
{
    if d.len() > 0 {
        lemma_dec_value_nonneg(d.drop_last());
        assert(is_digit(d[d.len() - 1]));
    }
}

/// Value of the digit run `d[lo..hi]`, if it fits an `i64`.
fn parse_run(d: &[char], lo: usize, hi: usize) -> (r: Option<i64>)
    requires
        lo <= hi <= d@.len(),
        forall|k: int| lo <= k < hi ==> is_digit(#[trigger] d@[k]),
    ensures
        dec_value(d@.subrange(lo as int, hi as int)) <= i64::MAX ==> r == Some(
            dec_value(d@.subrange(lo as int, hi as int)) as i64,
        ),
        dec_value(d@.subrange(lo as int, hi as int)) > i64::MAX ==> r is None,
{
    let mut acc: i64 = 0;
    let mut over = false;
    let mut j = lo;
    while j < hi
        invariant
            lo <= j <= hi <= d@.len(),
            forall|k: int| lo <= k < hi ==> is_digit(#[trigger] d@[k]),
            !over ==> acc as int == dec_value(d@.subrange(lo as int, j as int)),
            over ==> dec_value(d@.subrange(lo as int, j as int)) > i64::MAX,
        decreases hi - j,
    {
        let ghost prev = d@.subrange(lo as int, j as int);
        let ghost next = d@.subrange(lo as int, j + 1);
        proof {
            assert(next.drop_last() =~= prev);
            assert(next.last() == d@[j as int]);
            assert(is_digit(d@[j as int]));
            assert forall|k: int| 0 <= k < prev.len() implies is_digit(#[trigger] prev[k]) by {
                assert(prev[k] == d@[lo + k]);
            }
            lemma_dec_value_nonneg(prev);
        }
        let dig = (d[j] as u32 - 48) as i64;
        if !over {
            match acc.checked_mul(10) {
                Some(m) => match m.checked_add(dig) {
                    Some(v) => {
                        acc = v;
                    },
                    None => {
                        over = true;
                    },
                },
                None => {
                    over = true;
                },
            }
        }
        j = j + 1;
    }
    if over {
        None
    } else {
        Some(acc)
    }
}

proof fn lemma_fitting_cons(a: Seq<char>, rest: Seq<Seq<char>>)
    ensures
        fitting_values(seq![a] + rest) == (if dec_value(a) <= i64::MAX {
            seq![dec_value(a) as i64]
        } else {
            Seq::<i64>::empty()
        }) + fitting_values(rest),
{
    let p = seq![a] + rest;
    assert(p[0] == a);
    assert(p.drop_first() =~= rest);
}

/// Whole-integer tokens of a search query: the runs of ASCII digits that
/// fit an `i64`, in order.
pub fn integer_tokens(query: Option<&str>) -> (r: Vec<i64>)
    ensures
        r@ == spec_integer_tokens(
            match query {
                Some(q) => Some(q@),
                None => None,
            },
        ),
{
    let q = match query {
        Some(q) => q,
        None => {
            return Vec::new();
        },
    };
    let s = chars_of(q);
    let n = s.len();
    let mut out: Vec<i64> = Vec::new();
    let mut i: usize = 0;
    loop
        invariant_except_break
            i <= n,
            n == s@.len(),
            s@ == q@,
            fitting_values(digit_runs_from(s@, 0)) == out@ + fitting_values(
                digit_runs_from(s@, i as int),
            ),
        ensures
            out@ == fitting_values(digit_runs_from(s@, 0)),
        decreases n - i,
    {
        if i >= n {
            assert(out@ + Seq::<i64>::empty() =~= out@);
            break ;
        }
        let mut j = i;
        while j < n && !((s[j] as u32) >= 48 && (s[j] as u32) <= 57)
            invariant
                i <= j <= n,
                n == s@.len(),
                skip_nondigits(s@, i as int) == skip_nondigits(s@, j as int),
            decreases n - j,
        {
            j = j + 1;
        }
        if j >= n {
            assert(out@ + Seq::<i64>::empty() =~= out@);
            break ;
        }
        let mut k = j;
        while k < n && (s[k] as u32) >= 48 && (s[k] as u32) <= 57
            invariant
                j <= k <= n,
                n == s@.len(),
                digits_end(s@, j as int) == digits_end(s@, k as int),
                forall|t: int| j <= t < k ==> is_digit(#[trigger] s@[t]),
            decreases n - k,
        {
            k = k + 1;
        }
        proof {
            lemma_fitting_cons(s@.subrange(j as int, k as int), digit_runs_from(s@, k as int));
        }
        let ghost before = out@;
        match parse_run(&s, j, k) {
            Some(v) => {
                out.push(v);
                assert(out@ =~= before + seq![v]);
            },
            None => {
                assert(out@ =~= before + Seq::<i64>::empty());
            },
        }
        i = k;
    }
    out
}


// ---------------------------------------------------------------------------
// Laws
// ---------------------------------------------------------------------------

proof fn lemma_no_wildcards(q: Seq<char>)
    ensures
        forall|i: int|
            0 <= i < without_wildcards(q).len() ==> #[trigger] without_wildcards(q)[i] != '%'
                && without_wildcards(q)[i] != '_',
    decreases q.len(),
{
    if q.len() > 0 {
        lemma_no_wildcards(q.drop_last());
        let rest = without_wildcards(q.drop_last());
        let w = without_wildcards(q);
        assert forall|i: int| 0 <= i < w.len() implies #[trigger] w[i] != '%' && w[i] != '_' by {
            if i < rest.len() {
                assert(w[i] == rest[i]);
            }
        }
    }
}

/// A search query's own `%` and `_` never reach the `LIKE` pattern: only
/// the enclosing `%` are wildcards.
pub proof fn law_like_pattern_wildcards_only_at_ends(query: Option<Seq<char>>)
    ensures
        spec_like_pattern(query).len() >= 1,
        spec_like_pattern(query)[0] == '%',
        spec_like_pattern(query).last() == '%',
        forall|i: int|
            0 < i < spec_like_pattern(query).len() - 1 ==> #[trigger] spec_like_pattern(query)[i]
                != '%' && spec_like_pattern(query)[i] != '_',
{
    reveal_strlit("%");
    match query {
        Some(q) => {
            if trim(q).len() > 0 {
                let w = without_wildcards(q);
                lemma_no_wildcards(q);
                let r = "%"@ + w + "%"@;
                assert forall|i: int| 0 < i < r.len() - 1 implies #[trigger] r[i] != '%' && r[i]
                    != '_' by {
                    assert(r[i] == w[i - 1]);
                }
            }
        },
        None => {},
    }
}


proof fn lemma_listed_entities_known(pieces: Seq<Seq<char>>)
    ensures
        forall|i: int|
            0 <= i < listed_entities(pieces).len() ==> str_listed(
                SEARCH_ENTITIES@,
                #[trigger] listed_entities(pieces)[i],
            ),
    decreases pieces.len(),
{
    if pieces.len() > 0 {
        lemma_listed_entities_known(pieces.drop_first());
        let t = trim(pieces[0]);
        let head: Seq<Seq<char>> = if str_listed(SEARCH_ENTITIES@, t) {
            seq![t]
        } else {
            Seq::empty()
        };
        let rest = listed_entities(pieces.drop_first());
        let all = listed_entities(pieces);
        assert(all == head + rest);
        assert forall|i: int| 0 <= i < all.len() implies str_listed(
            SEARCH_ENTITIES@,
            #[trigger] all[i],
        ) by {
            if i < head.len() {
                assert(all[i] == t);
            } else {
                assert(all[i] == rest[i - head.len()]);
            }
        }
    }
}

/// A global search always covers at least one entity, and only
/// searchable ones.
pub proof fn law_search_entities_known(param: Option<Seq<char>>)
    ensures
        spec_parse_entities(param).len() > 0,
        forall|i: int|
            0 <= i < spec_parse_entities(param).len() ==> str_listed(
                SEARCH_ENTITIES@,
                #[trigger] spec_parse_entities(param)[i],
            ),
{
    let all = all_entities();
    assert(all.len() == 8);
    assert forall|i: int| 0 <= i < all.len() implies str_listed(SEARCH_ENTITIES@, #[trigger] all[i]) by {
        assert(SEARCH_ENTITIES@[i]@ == all[i]);
    }
    match param {
        Some(p) => lemma_listed_entities_known(split_char(p, ',')),
        None => {},
    }
}

} // verus!

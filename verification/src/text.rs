//! Character-level text toolkit shared by the route helpers: views of
//! strings as character sequences, Unicode whitespace trimming, substring
//! search (exact and ASCII case-insensitive) and splitting.
use vstd::prelude::*;

verus! {

broadcast use vstd::string::group_string_axioms;

// ---------------------------------------------------------------------------
// Specifications
// ---------------------------------------------------------------------------

/// Rust's `char::is_whitespace`: the Unicode `White_Space` property.
pub open spec fn is_ws(c: char) -> bool {
    let u = c as u32;
    ||| 9 <= u <= 13
    ||| u == 32
    ||| u == 0x85
    ||| u == 0xA0
    ||| u == 0x1680
    ||| 0x2000 <= u <= 0x200A
    ||| u == 0x2028
    ||| u == 0x2029
    ||| u == 0x202F
    ||| u == 0x205F
    ||| u == 0x3000
}

/// `u8::is_ascii_whitespace` lifted to characters: space, tab, LF, FF, CR.
pub open spec fn is_ascii_ws(c: char) -> bool {
    let u = c as u32;
    u == 32 || u == 9 || u == 10 || u == 12 || u == 13
}

/// `str::trim_start` (Unicode whitespace).
pub open spec fn trim_start(s: Seq<char>) -> Seq<char>
    decreases s.len(),
{
    if s.len() > 0 && is_ws(s[0]) {
        trim_start(s.drop_first())
    } else {
        s
    }
}

/// `str::trim_end` (Unicode whitespace).
pub open spec fn trim_end(s: Seq<char>) -> Seq<char>
    decreases s.len(),
{
    if s.len() > 0 && is_ws(s.last()) {
        trim_end(s.drop_last())
    } else {
        s
    }
}

/// `str::trim`.
pub open spec fn trim(s: Seq<char>) -> Seq<char> {
    trim_end(trim_start(s))
}

/// The code of `c` after ASCII lowercasing (`A`..`Z` map to `a`..`z`).
pub open spec fn lower_code(c: char) -> u32 {
    if 65 <= c as u32 <= 90 {
        (c as u32 + 32) as u32
    } else {
        c as u32
    }
}

/// `p` occurs in `s` at index `i`.
pub open spec fn matches_at(s: Seq<char>, p: Seq<char>, i: int) -> bool {
    &&& 0 <= i
    &&& i + p.len() <= s.len()
    &&& forall|j: int| 0 <= j < p.len() ==> #[trigger] s[i + j] == p[j]
}

/// `p` occurs in `s` at index `i` when `s` is ASCII-lowercased; `p` is
/// meant to be lowercase already.
pub open spec fn matches_ci_at(s: Seq<char>, p: Seq<char>, i: int) -> bool {
    &&& 0 <= i
    &&& i + p.len() <= s.len()
    &&& forall|j: int| 0 <= j < p.len() ==> lower_code(#[trigger] s[i + j]) == p[j] as u32
}

/// First index `>= k` at which `p` occurs in `s`.
pub open spec fn find_from(s: Seq<char>, p: Seq<char>, k: int) -> Option<int>
    decreases s.len() - k,
{
    if k < 0 || k + p.len() > s.len() {
        None
    } else if matches_at(s, p, k) {
        Some(k)
    } else {
        find_from(s, p, k + 1)
    }
}

/// First index `>= k` at which `p` occurs case-insensitively in `s`.
pub open spec fn find_ci_from(s: Seq<char>, p: Seq<char>, k: int) -> Option<int>
    decreases s.len() - k,
{
    if k < 0 || k + p.len() > s.len() {
        None
    } else if matches_ci_at(s, p, k) {
        Some(k)
    } else {
        find_ci_from(s, p, k + 1)
    }
}

/// `str::contains` with a string pattern.
pub open spec fn contains(s: Seq<char>, p: Seq<char>) -> bool {
    exists|i: int| matches_at(s, p, i)
}

/// Case-insensitive (ASCII) containment of a lowercase pattern.
pub open spec fn contains_ci(s: Seq<char>, p: Seq<char>) -> bool {
    exists|i: int| matches_ci_at(s, p, i)
}

/// `str::starts_with`.
pub open spec fn starts_with(s: Seq<char>, p: Seq<char>) -> bool {
    matches_at(s, p, 0)
}

/// First index `>= k` holding the character `c`.
pub open spec fn find_char_from(s: Seq<char>, c: char, k: int) -> Option<int>
    decreases s.len() - k,
{
    if k < 0 || k >= s.len() {
        None
    } else if s[k] == c {
        Some(k)
    } else {
        find_char_from(s, c, k + 1)
    }
}

/// The prefix of `s` before the first `c` (the first piece of `split(c)`).
pub open spec fn before_char(s: Seq<char>, c: char) -> Seq<char> {
    match find_char_from(s, c, 0) {
        Some(i) => s.subrange(0, i),
        None => s,
    }
}

/// `str::split(c)` for a single character separator: every piece, in order.
pub open spec fn split_char(s: Seq<char>, c: char) -> Seq<Seq<char>>
    decreases s.len(),
{
    match find_char_from(s, c, 0) {
        Some(i) => {
            proof {
                lemma_find_char_from_spec(s, c, 0);
            }
            seq![s.subrange(0, i)] + split_char(s.subrange(i + 1, s.len() as int), c)
        },
        None => seq![s],
    }
}

/// Some character of `s` is whitespace.
pub open spec fn has_ws(s: Seq<char>) -> bool {
    exists|i: int| 0 <= i < s.len() && is_ws(#[trigger] s[i])
}

/// `c` occurs in `s`.
pub open spec fn has_char(s: Seq<char>, c: char) -> bool {
    exists|i: int| 0 <= i < s.len() && #[trigger] s[i] == c
}

// ---------------------------------------------------------------------------
// Lemmas
// ---------------------------------------------------------------------------

/// A found index is a match, and nothing earlier (from `k`) matches.
pub proof fn lemma_find_from_spec(s: Seq<char>, p: Seq<char>, k: int)
    requires
        0 <= k,
    ensures
        find_from(s, p, k) matches Some(i) ==> k <= i && matches_at(s, p, i) && forall|j: int|
            k <= j < i ==> !matches_at(s, p, j),
        find_from(s, p, k) is None ==> forall|j: int| k <= j ==> !matches_at(s, p, j),
    decreases s.len() - k,
{
    if k + p.len() > s.len() {
    } else if matches_at(s, p, k) {
    } else {
        lemma_find_from_spec(s, p, k + 1);
    }
}

/// Same as `lemma_find_from_spec`, case-insensitively.
pub proof fn lemma_find_ci_from_spec(s: Seq<char>, p: Seq<char>, k: int)
    requires
        0 <= k,
    ensures
        find_ci_from(s, p, k) matches Some(i) ==> k <= i && matches_ci_at(s, p, i) && forall|
            j: int,
        |
            k <= j < i ==> !matches_ci_at(s, p, j),
        find_ci_from(s, p, k) is None ==> forall|j: int| k <= j ==> !matches_ci_at(s, p, j),
    decreases s.len() - k,
{
    if k + p.len() > s.len() {
    } else if matches_ci_at(s, p, k) {
    } else {
        lemma_find_ci_from_spec(s, p, k + 1);
    }
}

/// A found character index holds the character; nothing earlier does.
pub proof fn lemma_find_char_from_spec(s: Seq<char>, c: char, k: int)
    requires
        0 <= k,
    ensures
        find_char_from(s, c, k) matches Some(i) ==> k <= i < s.len() && s[i] == c && forall|
            j: int,
        |
            k <= j < i ==> s[j] != c,
        find_char_from(s, c, k) is None ==> forall|j: int| k <= j < s.len() ==> s[j] != c,
    decreases s.len() - k,
{
    if k >= s.len() {
    } else if s[k] == c {
    } else {
        lemma_find_char_from_spec(s, c, k + 1);
    }
}

// ---------------------------------------------------------------------------
// Executable helpers
// ---------------------------------------------------------------------------

/// The characters of `s`, in order.
pub fn chars_of(s: &str) -> (v: Vec<char>)
    ensures
        v@ == s@,
{
    let mut v: Vec<char> = Vec::new();
    for c in it: s.chars()
        invariant
            it.seq() == s@,
            v@ == it.seq().take(it.index()),
    {
        v.push(c);
    }
    v
}

/// `String` made of the characters of `v` (`FromIterator<char>`).
#[verifier::external_body]
pub(crate) fn string_of(v: &[char]) -> (s: String)
    ensures
        s@ == v@,
{
    v.iter().collect()
}

/// `char::is_whitespace`.
pub fn is_ws_char(c: char) -> (r: bool)
    ensures
        r == is_ws(c),
{
    let u = c as u32;
    (9 <= u && u <= 13) || u == 32 || u == 0x85 || u == 0xA0 || u == 0x1680 || (0x2000 <= u && u
        <= 0x200A) || u == 0x2028 || u == 0x2029 || u == 0x202F || u == 0x205F || u == 0x3000
}

/// `u8::is_ascii_whitespace` on a character.
pub fn is_ascii_ws_char(c: char) -> (r: bool)
    ensures
        r == is_ascii_ws(c),
{
    let u = c as u32;
    u == 32 || u == 9 || u == 10 || u == 12 || u == 13
}

/// ASCII lowercase code of a character.
pub fn lower_code_of(c: char) -> (r: u32)
    ensures
        r == lower_code(c),
{
    let u = c as u32;
    if 65 <= u && u <= 90 {
        u + 32
    } else {
        u
    }
}

proof fn lemma_trim_start_step(s: Seq<char>, i: int)
    requires
        0 <= i < s.len(),
        is_ws(s[i]),
    ensures
        trim_start(s.subrange(i, s.len() as int)) == trim_start(s.subrange(i + 1, s.len() as int)),
{
    let t = s.subrange(i, s.len() as int);
    assert(t.drop_first() =~= s.subrange(i + 1, s.len() as int));
}

proof fn lemma_trim_end_step(s: Seq<char>, lo: int, hi: int)
    requires
        0 <= lo < hi <= s.len(),
        is_ws(s[hi - 1]),
    ensures
        trim_end(s.subrange(lo, hi)) == trim_end(s.subrange(lo, hi - 1)),
{
    let t = s.subrange(lo, hi);
    assert(t.drop_last() =~= s.subrange(lo, hi - 1));
}

/// Bounds `(lo, hi)` of `str::trim` within `s`.
pub fn trim_bounds(s: &[char]) -> (r: (usize, usize))
    ensures
        r.0 <= r.1 <= s@.len(),
        s@.subrange(r.0 as int, r.1 as int) == trim(s@),
{
    let n = s.len();
    let mut lo: usize = 0;
    assert(s@.subrange(0, n as int) =~= s@);
    while lo < n && is_ws_char(s[lo])
        invariant
            lo <= n,
            n == s@.len(),
            trim_start(s@) == trim_start(s@.subrange(lo as int, n as int)),
        decreases n - lo,
    {
        proof {
            lemma_trim_start_step(s@, lo as int);
        }
        lo = lo + 1;
    }
    let mut hi: usize = n;
    proof {
        let t = s@.subrange(lo as int, n as int);
        if t.len() > 0 {
            assert(t[0] == s@[lo as int]);
        }
        assert(trim_start(s@) == t);
    }
    while hi > lo && is_ws_char(s[hi - 1])
        invariant
            lo <= hi <= n,
            n == s@.len(),
            trim(s@) == trim_end(s@.subrange(lo as int, hi as int)),
        decreases hi - lo,
    {
        proof {
            lemma_trim_end_step(s@, lo as int, hi as int);
        }
        hi = hi - 1;
    }
    proof {
        let t = s@.subrange(lo as int, hi as int);
        if t.len() > 0 {
            assert(t.last() == s@[hi - 1]);
        }
    }
    (lo, hi)
}

/// Length of `str::trim_end` of `s`.
pub fn trim_end_bound(s: &[char]) -> (r: usize)
    ensures
        r <= s@.len(),
        s@.subrange(0, r as int) == trim_end(s@),
{
    let n = s.len();
    let mut hi: usize = n;
    assert(s@.subrange(0, n as int) =~= s@);
    while hi > 0 && is_ws_char(s[hi - 1])
        invariant
            hi <= n,
            n == s@.len(),
            trim_end(s@) == trim_end(s@.subrange(0, hi as int)),
        decreases hi,
    {
        proof {
            lemma_trim_end_step(s@, 0, hi as int);
        }
        hi = hi - 1;
    }
    proof {
        let t = s@.subrange(0, hi as int);
        if t.len() > 0 {
            assert(t.last() == s@[hi - 1]);
        }
    }
    hi
}

/// `out` extended with `src[lo..hi]`.
pub fn push_range(out: &mut Vec<char>, src: &[char], lo: usize, hi: usize)
    requires
        lo <= hi <= src@.len(),
    ensures
        final(out)@ == old(out)@ + src@.subrange(lo as int, hi as int),
{
    let mut i = lo;
    while i < hi
        invariant
            lo <= i <= hi,
            hi <= src@.len(),
            out@ == old(out)@ + src@.subrange(lo as int, i as int),
        decreases hi - i,
    {
        out.push(src[i]);
        proof {
            assert(src@.subrange(lo as int, i + 1) =~= src@.subrange(lo as int, i as int).push(
                src@[i as int],
            ));
        }
        i = i + 1;
    }
}

/// `out` extended with all of `src`.
pub fn push_all(out: &mut Vec<char>, src: &[char])
    ensures
        final(out)@ == old(out)@ + src@,
{
    push_range(out, src, 0, src.len());
    proof {
        assert(src@.subrange(0, src@.len() as int) =~= src@);
    }
}

/// `str::trim` as a character vector.
pub fn trim_chars(s: &[char]) -> (r: Vec<char>)
    ensures
        r@ == trim(s@),
{
    let (lo, hi) = trim_bounds(s);
    let mut r: Vec<char> = Vec::new();
    push_range(&mut r, s, lo, hi);
    assert(r@ =~= s@.subrange(lo as int, hi as int));
    r
}

/// Whether `p` occurs in `s` at index `i`.
pub fn matches_at_exec(s: &[char], p: &[char], i: usize) -> (r: bool)
    ensures
        r == matches_at(s@, p@, i as int),
{
    if i > s.len() || p.len() > s.len() - i {
        return false;
    }
    let mut j: usize = 0;
    while j < p.len()
        invariant
            i + p@.len() <= s@.len(),
            i + p.len() <= s.len(),
            j <= p@.len(),
            forall|t: int| 0 <= t < j ==> #[trigger] s@[i + t] == p@[t],
        decreases p.len() - j,
    {
        if s[i + j] != p[j] {
            return false;
        }
        j = j + 1;
    }
    true
}

/// Whether `p` occurs case-insensitively in `s` at index `i`.
pub fn matches_ci_at_exec(s: &[char], p: &[char], i: usize) -> (r: bool)
    ensures
        r == matches_ci_at(s@, p@, i as int),
{
    if i > s.len() || p.len() > s.len() - i {
        return false;
    }
    let mut j: usize = 0;
    while j < p.len()
        invariant
            i + p@.len() <= s@.len(),
            i + p.len() <= s.len(),
            j <= p@.len(),
            forall|t: int| 0 <= t < j ==> lower_code(#[trigger] s@[i + t]) == p@[t] as u32,
        decreases p.len() - j,
    {
        if lower_code_of(s[i + j]) != p[j] as u32 {
            return false;
        }
        j = j + 1;
    }
    true
}

/// `s[k..].find(p)` as an absolute index.
pub fn find_from_exec(s: &[char], p: &[char], k: usize) -> (r: Option<usize>)
    ensures
        r matches Some(i) ==> find_from(s@, p@, k as int) == Some(i as int),
        r is None ==> find_from(s@, p@, k as int) is None,
{
    let mut i = k;
    while i <= s.len() && p.len() <= s.len() - i
        invariant
            k <= i,
            find_from(s@, p@, k as int) == find_from(s@, p@, i as int),
        decreases s.len() + 1 - i,
    {
        if matches_at_exec(s, p, i) {
            return Some(i);
        }
        i = i + 1;
    }
    None
}

/// Case-insensitive `s[k..].find(p)` as an absolute index.
pub fn find_ci_from_exec(s: &[char], p: &[char], k: usize) -> (r: Option<usize>)
    ensures
        r matches Some(i) ==> find_ci_from(s@, p@, k as int) == Some(i as int),
        r is None ==> find_ci_from(s@, p@, k as int) is None,
{
    let mut i = k;
    while i <= s.len() && p.len() <= s.len() - i
        invariant
            k <= i,
            find_ci_from(s@, p@, k as int) == find_ci_from(s@, p@, i as int),
        decreases s.len() + 1 - i,
    {
        if matches_ci_at_exec(s, p, i) {
            return Some(i);
        }
        i = i + 1;
    }
    None
}

/// Index of the first `c` at or after `k`.
pub fn find_char_exec(s: &[char], c: char, k: usize) -> (r: Option<usize>)
    ensures
        r matches Some(i) ==> find_char_from(s@, c, k as int) == Some(i as int),
        r is None ==> find_char_from(s@, c, k as int) is None,
{
    let mut i = k;
    while i < s.len()
        invariant
            k <= i,
            find_char_from(s@, c, k as int) == find_char_from(s@, c, i as int),
        decreases s.len() - i,
    {
        if s[i] == c {
            return Some(i);
        }
        i = i + 1;
    }
    None
}

/// Whether `p` occurs case-insensitively anywhere in `s`.
pub fn contains_ci_exec(s: &[char], p: &[char]) -> (r: bool)
    ensures
        r == contains_ci(s@, p@),
{
    let f = find_ci_from_exec(s, p, 0);
    proof {
        lemma_find_ci_from_spec(s@, p@, 0);
    }
    f.is_some()
}

/// Whether `s` starts with `p`.
pub fn starts_with_exec(s: &[char], p: &[char]) -> (r: bool)
    ensures
        r == starts_with(s@, p@),
{
    matches_at_exec(s, p, 0)
}

/// Character-sequence equality.
pub fn chars_eq(a: &[char], b: &[char]) -> (r: bool)
    ensures
        r == (a@ == b@),
{
    if a.len() != b.len() {
        return false;
    }
    let r = matches_at_exec(a, b, 0);
    proof {
        if r {
            assert forall|t: int| 0 <= t < a@.len() implies a@[t] == b@[t] by {
                assert(a@[0 + t] == b@[t]);
            }
            assert(a@ =~= b@);
        }
    }
    r
}

/// String equality (`==` on `str`).
pub fn str_eq(a: &str, b: &str) -> (r: bool)
    ensures
        r == (a@ == b@),
{
    let va = chars_of(a);
    let vb = chars_of(b);
    chars_eq(&va, &vb)
}

/// Whether some character of `s` is whitespace.
pub fn has_ws_exec(s: &[char]) -> (r: bool)
    ensures
        r == has_ws(s@),
{
    let mut i: usize = 0;
    while i < s.len()
        invariant
            i <= s@.len(),
            forall|j: int| 0 <= j < i ==> !is_ws(#[trigger] s@[j]),
        decreases s.len() - i,
    {
        if is_ws_char(s[i]) {
            return true;
        }
        i = i + 1;
    }
    false
}

/// Whether `c` occurs in `s`.
pub fn has_char_exec(s: &[char], c: char) -> (r: bool)
    ensures
        r == has_char(s@, c),
{
    let mut i: usize = 0;
    while i < s.len()
        invariant
            i <= s@.len(),
            forall|j: int| 0 <= j < i ==> #[trigger] s@[j] != c,
        decreases s.len() - i,
    {
        if s[i] == c {
            return true;
        }
        i = i + 1;
    }
    false
}

/// `s` up to (not including) its first `c` — `s.split(c).next()`.
pub fn before_char_exec(s: &[char], c: char) -> (r: Vec<char>)
    ensures
        r@ == before_char(s@, c),
{
    let mut r: Vec<char> = Vec::new();
    match find_char_exec(s, c, 0) {
        Some(i) => {
            proof {
                lemma_find_char_from_spec(s@, c, 0);
            }
            push_range(&mut r, s, 0, i);
            assert(r@ =~= s@.subrange(0, i as int));
        },
        None => {
            push_all(&mut r, s);
            assert(r@ =~= s@);
        },
    }
    r
}

// ---------------------------------------------------------------------------
// Splitting
// ---------------------------------------------------------------------------

/// The trimmed pieces that are not empty, in order.
pub open spec fn trimmed_nonempty(pieces: Seq<Seq<char>>) -> Seq<Seq<char>>
    decreases pieces.len(),
{
    if pieces.len() == 0 {
        seq![]
    } else {
        let t = trim(pieces[0]);
        (if t.len() > 0 {
            seq![t]
        } else {
            seq![]
        }) + trimmed_nonempty(pieces.drop_first())
    }
}

/// The views of a vector of character vectors.
pub open spec fn views(v: Seq<Vec<char>>) -> Seq<Seq<char>> {
    v.map_values(|x: Vec<char>| x@)
}

/// The views of a vector of strings.
pub open spec fn string_views(v: Seq<String>) -> Seq<Seq<char>> {
    v.map_values(|x: String| x@)
}

proof fn lemma_find_char_shift(s: Seq<char>, c: char, pos: int, k: int)
    requires
        0 <= pos <= k,
        pos <= s.len(),
    ensures
        find_char_from(s.subrange(pos, s.len() as int), c, k - pos) == (match find_char_from(
            s,
            c,
            k,
        ) {
            Some(i) => Some(i - pos),
            None => None,
        }),
    decreases s.len() - k,
{
    let t = s.subrange(pos, s.len() as int);
    if k >= s.len() {
    } else {
        assert(t[k - pos] == s[k]);
        if s[k] != c {
            lemma_find_char_shift(s, c, pos, k + 1);
        }
    }
}

/// One step of `split_char` on a suffix of `s`.
pub proof fn lemma_split_step(s: Seq<char>, c: char, pos: int)
    requires
        0 <= pos <= s.len(),
    ensures
        ({
            let t = s.subrange(pos, s.len() as int);
            match find_char_from(s, c, pos) {
                Some(i) => pos <= i < s.len() && split_char(t, c) == seq![s.subrange(pos, i)]
                    + split_char(s.subrange(i + 1, s.len() as int), c),
                None => split_char(t, c) == seq![t],
            }
        }),
{
    let t = s.subrange(pos, s.len() as int);
    lemma_find_char_shift(s, c, pos, pos);
    lemma_find_char_from_spec(s, c, pos);
    match find_char_from(s, c, pos) {
        Some(i) => {
            assert(t.subrange(0, i - pos) =~= s.subrange(pos, i));
            assert(t.subrange(i - pos + 1, t.len() as int) =~= s.subrange(i + 1, s.len() as int));
        },
        None => {},
    }
}

/// `trimmed_nonempty` of a sequence starting with `a`.
pub proof fn lemma_trimmed_nonempty_cons(a: Seq<char>, rest: Seq<Seq<char>>)
    ensures
        trimmed_nonempty(seq![a] + rest) == (if trim(a).len() > 0 {
            seq![trim(a)]
        } else {
            seq![]
        }) + trimmed_nonempty(rest),
{
    let p = seq![a] + rest;
    assert(p[0] == a);
    assert(p.drop_first() =~= rest);
}

/// `s.split(c).map(str::trim).filter(|t| !t.is_empty())`, each piece as a
/// character vector.
pub fn split_trim_nonempty(s: &[char], c: char) -> (r: Vec<Vec<char>>)
    ensures
        views(r@) == trimmed_nonempty(split_char(s@, c)),
{
    let n = s.len();
    let mut out: Vec<Vec<char>> = Vec::new();
    let mut pos: usize = 0;
    assert(s@.subrange(0, n as int) =~= s@);
    loop
        invariant_except_break
            pos <= n,
            n == s@.len(),
            trimmed_nonempty(split_char(s@, c)) == views(out@) + trimmed_nonempty(
                split_char(s@.subrange(pos as int, n as int), c),
            ),
        ensures
            views(out@) == trimmed_nonempty(split_char(s@, c)),
        decreases n - pos,
    {
        let f = find_char_exec(s, c, pos);
        proof {
            lemma_split_step(s@, c, pos as int);
        }
        let end = match f {
            Some(i) => i,
            None => n,
        };
        let mut piece: Vec<char> = Vec::new();
        push_range(&mut piece, s, pos, end);
        let t = trim_chars(&piece);
        let ghost old_out = out@;
        proof {
            lemma_trimmed_nonempty_cons(
                piece@,
                match f {
                    Some(i) => split_char(s@.subrange(i + 1, n as int), c),
                    None => seq![],
                },
            );
            assert(piece@ =~= s@.subrange(pos as int, end as int));
            if f is None {
                assert(s@.subrange(pos as int, n as int) =~= piece@);
                assert(seq![piece@] =~= seq![piece@] + Seq::<Seq<char>>::empty());
            }
        }
        if t.len() > 0 {
            out.push(t);
        }
        proof {
            assert(views(out@) =~= views(old_out) + (if trim(piece@).len() > 0 {
                seq![trim(piece@)]
            } else {
                seq![]
            }));
        }
        match f {
            Some(i) => {
                pos = i + 1;
            },
            None => {
                proof {
                    assert(trimmed_nonempty(Seq::<Seq<char>>::empty()) =~= seq![]);
                    assert(views(out@) =~= views(out@) + Seq::<Seq<char>>::empty());
                }
                break ;
            },
        }
    }
    out
}

/// Strings made of each character vector.
pub fn strings_of(v: &Vec<Vec<char>>) -> (r: Vec<String>)
    ensures
        string_views(r@) == views(v@),
{
    let mut r: Vec<String> = Vec::new();
    let mut i: usize = 0;
    while i < v.len()
        invariant
            i <= v@.len(),
            string_views(r@) == views(v@).take(i as int),
        decreases v.len() - i,
    {
        let s = string_of(&v[i]);
        let ghost before = r@;
        r.push(s);
        proof {
            assert(views(v@).take(i + 1) =~= views(v@).take(i as int).push(v@[i as int]@));
            assert(string_views(r@) =~= string_views(before).push(s@));
        }
        i = i + 1;
    }
    proof {
        assert(views(v@).take(v@.len() as int) =~= views(v@));
    }
    r
}

/// `s` is one of the strings of `list`.
pub open spec fn str_listed(list: Seq<&str>, s: Seq<char>) -> bool {
    exists|i: int| 0 <= i < list.len() && (#[trigger] list[i])@ == s
}

/// `list.contains(&s)`.
pub fn str_in(list: &[&str], s: &str) -> (r: bool)
    ensures
        r == str_listed(list@, s@),
{
    let mut i: usize = 0;
    while i < list.len()
        invariant
            i <= list@.len(),
            forall|j: int| 0 <= j < i ==> (#[trigger] list@[j])@ != s@,
        decreases list.len() - i,
    {
        if str_eq(list[i], s) {
            return true;
        }
        i = i + 1;
    }
    false
}

/// Index of the last `c` in `s`.
pub open spec fn last_char_index(s: Seq<char>, c: char) -> Option<int>
    decreases s.len(),
{
    if s.len() == 0 {
        None
    } else if s.last() == c {
        Some(s.len() - 1)
    } else {
        last_char_index(s.drop_last(), c)
    }
}

/// `s` after its last `c` (all of `s` when there is none) — the last
/// piece of `split(c)`.
pub open spec fn after_last_char(s: Seq<char>, c: char) -> Seq<char> {
    match last_char_index(s, c) {
        Some(i) => s.subrange(i + 1, s.len() as int),
        None => s,
    }
}

proof fn lemma_last_char_index(s: Seq<char>, c: char, k: int)
    requires
        0 <= k <= s.len(),
        forall|j: int| k <= j < s.len() ==> s[j] != c,
    ensures
        last_char_index(s, c) == last_char_index(s.subrange(0, k), c),
    decreases s.len() - k,
{
    if k < s.len() {
        assert(s.drop_last() =~= s.subrange(0, s.len() - 1));
        lemma_last_char_index(s.drop_last(), c, k);
        assert(s.drop_last().subrange(0, k) =~= s.subrange(0, k));
    } else {
        assert(s.subrange(0, k) =~= s);
    }
}

/// `s.split(c).next_back()`.
pub fn after_last_char_exec(s: &[char], c: char) -> (r: Vec<char>)
    ensures
        r@ == after_last_char(s@, c),
{
    let n = s.len();
    let mut k: usize = n;
    while k > 0 && s[k - 1] != c
        invariant
            k <= n,
            n == s@.len(),
            forall|j: int| k <= j < n ==> s@[j] != c,
        decreases k,
    {
        k = k - 1;
    }
    proof {
        lemma_last_char_index(s@, c, k as int);
        let t = s@.subrange(0, k as int);
        if k > 0 {
            assert(t.last() == s@[k - 1]);
        }
    }
    let mut r: Vec<char> = Vec::new();
    push_range(&mut r, s, k, n);
    proof {
        if k == 0 {
            assert(r@ =~= s@);
        }
    }
    r
}

/// `s.split(c)`: every piece, as character vectors.
pub fn split_pieces(s: &[char], c: char) -> (r: Vec<Vec<char>>)
    ensures
        views(r@) == split_char(s@, c),
{
    let n = s.len();
    let mut out: Vec<Vec<char>> = Vec::new();
    let mut pos: usize = 0;
    assert(s@.subrange(0, n as int) =~= s@);
    loop
        invariant_except_break
            pos <= n,
            n == s@.len(),
            split_char(s@, c) == views(out@) + split_char(s@.subrange(pos as int, n as int), c),
        ensures
            views(out@) == split_char(s@, c),
        decreases n - pos,
    {
        let f = find_char_exec(s, c, pos);
        proof {
            lemma_split_step(s@, c, pos as int);
        }
        let end = match f {
            Some(i) => i,
            None => n,
        };
        let mut piece: Vec<char> = Vec::new();
        push_range(&mut piece, s, pos, end);
        let ghost old_out = out@;
        out.push(piece);
        proof {
            assert(piece@ =~= s@.subrange(pos as int, end as int));
            assert(views(out@) =~= views(old_out).push(piece@));
        }
        match f {
            Some(i) => {
                proof {
                    assert(views(out@) + split_char(s@.subrange(i + 1, n as int), c) =~= views(
                        old_out,
                    ) + (seq![piece@] + split_char(s@.subrange(i + 1, n as int), c)));
                }
                pos = i + 1;
            },
            None => {
                proof {
                    assert(s@.subrange(pos as int, n as int) =~= piece@);
                    assert(views(out@) =~= views(old_out) + seq![piece@]);
                }
                break ;
            },
        }
    }
    out
}

/// What `str::to_lowercase` gives for `s`: the full Unicode lowercase
/// mapping, character by character (with the final-sigma rule).
pub uninterp spec fn unicode_lowercase(s: Seq<char>) -> Seq<char>;

/// `str::to_lowercase`; the contract names the result without spelling
/// out the Unicode tables.
#[verifier::external_body]
pub(crate) fn to_lowercase(s: &str) -> (r: String)
    ensures
        r@ == unicode_lowercase(s@),
{
    s.to_lowercase()
}

/// What `str::to_uppercase` gives for `s`: the full Unicode uppercase
/// mapping, character by character (one character may become several).
pub uninterp spec fn unicode_uppercase(s: Seq<char>) -> Seq<char>;

/// `str::to_uppercase`; the contract names the result without spelling
/// out the Unicode tables.
#[verifier::external_body]
pub(crate) fn to_uppercase(s: &str) -> (r: String)
    ensures
        r@ == unicode_uppercase(s@),
{
    s.to_uppercase()
}

/// Length in bytes of the UTF-8 encoding of `v` (what `str::len` gives).
pub open spec fn utf8_len(v: Seq<char>) -> nat {
    vstd::utf8::encode_utf8(v).len()
}

fn char_width(c: char) -> (r: usize)
    ensures
        r == vstd::utf8::encode_scalar(c as u32).len(),
{
    proof {
        vstd::utf8::char_is_scalar(c);
    }
    let u = c as u32;
    if u <= 0x7F {
        1
    } else if u <= 0x7FF {
        2
    } else if u <= 0xFFFF {
        3
    } else {
        4
    }
}

/// Whether the UTF-8 encoding of `v` is longer than `cap` bytes.
pub fn utf8_len_exceeds(v: &[char], cap: usize) -> (r: bool)
    ensures
        r == (utf8_len(v@) > cap),
{
    let n = v.len();
    let mut total: usize = 0;
    let mut i: usize = 0;
    assert(v@.subrange(0, n as int) =~= v@);
    while i < n
        invariant
            i <= n,
            n == v@.len(),
            total <= cap,
            total + utf8_len(v@.subrange(i as int, n as int)) == utf8_len(v@),
        decreases n - i,
    {
        let w = char_width(v[i]);
        proof {
            let t = v@.subrange(i as int, n as int);
            assert(t[0] == v@[i as int]);
            assert(t.drop_first() =~= v@.subrange(i + 1, n as int));
        }
        if w > cap - total {
            return true;
        }
        total = total + w;
        i = i + 1;
    }
    proof {
        assert(v@.subrange(n as int, n as int) =~= Seq::<char>::empty());
    }
    false
}


// ---------------------------------------------------------------------------
// Trimming facts
// ---------------------------------------------------------------------------

/// Trimming the start gives a suffix whose first character (if any) is
/// not whitespace.
pub proof fn lemma_trim_start_shape(s: Seq<char>)
    ensures
        trim_start(s).len() <= s.len(),
        trim_start(s) == s.subrange(s.len() - trim_start(s).len(), s.len() as int),
        trim_start(s).len() > 0 ==> !is_ws(trim_start(s)[0]),
    decreases s.len(),
{
    if s.len() > 0 && is_ws(s[0]) {
        lemma_trim_start_shape(s.drop_first());
        let t = trim_start(s.drop_first());
        assert(s.drop_first().subrange(s.len() - 1 - t.len(), s.len() - 1) =~= s.subrange(
            s.len() - t.len(),
            s.len() as int,
        ));
    } else {
        assert(s.subrange(0, s.len() as int) =~= s);
    }
}

/// Trimming the end gives a prefix whose last character (if any) is not
/// whitespace.
pub proof fn lemma_trim_end_shape(s: Seq<char>)
    ensures
        trim_end(s).len() <= s.len(),
        trim_end(s) == s.subrange(0, trim_end(s).len() as int),
        trim_end(s).len() > 0 ==> !is_ws(trim_end(s).last()),
    decreases s.len(),
{
    if s.len() > 0 && is_ws(s.last()) {
        lemma_trim_end_shape(s.drop_last());
        let t = trim_end(s.drop_last());
        assert(s.drop_last().subrange(0, t.len() as int) =~= s.subrange(0, t.len() as int));
    } else {
        assert(s.subrange(0, s.len() as int) =~= s);
    }
}

/// A sequence that neither starts nor ends with whitespace is its own
/// trim.
pub proof fn lemma_trim_fixed(s: Seq<char>)
    requires
        s.len() > 0 ==> !is_ws(s[0]) && !is_ws(s.last()),
    ensures
        trim(s) == s,
{
}

/// Trimming twice is trimming once.
pub proof fn lemma_trim_idempotent(s: Seq<char>)
    ensures
        trim(trim(s)) == trim(s),
{
    let t = trim_start(s);
    lemma_trim_start_shape(s);
    lemma_trim_end_shape(t);
    let u = trim_end(t);
    if u.len() > 0 {
        assert(u[0] == t[0]);
    }
    lemma_trim_fixed(u);
}


/// Every kept piece is non-empty and already trimmed.
pub proof fn lemma_trimmed_nonempty_shape(pieces: Seq<Seq<char>>)
    ensures
        forall|i: int|
            0 <= i < trimmed_nonempty(pieces).len() ==> (#[trigger] trimmed_nonempty(pieces)[i]).len()
                > 0 && trim(trimmed_nonempty(pieces)[i]) == trimmed_nonempty(pieces)[i],
    decreases pieces.len(),
{
    if pieces.len() > 0 {
        lemma_trimmed_nonempty_shape(pieces.drop_first());
        lemma_trim_idempotent(pieces[0]);
        let t = trim(pieces[0]);
        let head: Seq<Seq<char>> = if t.len() > 0 {
            seq![t]
        } else {
            seq![]
        };
        let rest = trimmed_nonempty(pieces.drop_first());
        let all = trimmed_nonempty(pieces);
        assert(all == head + rest);
        assert forall|i: int| 0 <= i < all.len() implies (#[trigger] all[i]).len() > 0 && trim(
            all[i],
        ) == all[i] by {
            if i < head.len() {
                assert(all[i] == t);
            } else {
                assert(all[i] == rest[i - head.len()]);
            }
        }
    }
}

} // verus!

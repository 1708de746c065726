//! Object-storage proxy: which bucket and endpoint it serves, and the
//! upstream URL of a request (or none, for a request that is not its own).
use vstd::prelude::*;

use crate::text::{
    chars_of, chars_eq, push_all, push_range, split_char, split_pieces, string_of, views,
};

verus! {

broadcast use vstd::string::group_string_axioms;

/// Bucket served when none is configured.
pub const DEFAULT_BUCKET: &'static str = "uploads";

/// Internal object-storage endpoint used when none is configured.
pub const DEFAULT_ENDPOINT: &'static str = "http://plane-minio:9000";

/// The configured bucket name, or the default when the setting is absent
/// (an empty setting is kept as it is).
pub fn bucket_or_default(setting: Option<&str>) -> (r: String)
    ensures
        r@ == match setting {
            Some(s) => s@,
            None => DEFAULT_BUCKET@,
        },
{
    match setting {
        Some(s) => s.to_owned(),
        None => DEFAULT_BUCKET.to_owned(),
    }
}

/// The first non-empty endpoint setting (primary, then fallback), else
/// the default endpoint.
pub fn endpoint_or_default(primary: Option<&str>, fallback: Option<&str>) -> (r: String)
    ensures
        r@ == match (primary, fallback) {
            (Some(p), _) if p@.len() > 0 => p@,
            (_, Some(f)) if f@.len() > 0 => f@,
            _ => DEFAULT_ENDPOINT@,
        },
{
    if let Some(p) = primary {
        if p.unicode_len() > 0 {
            return p.to_owned();
        }
    }
    if let Some(f) = fallback {
        if f.unicode_len() > 0 {
            return f.to_owned();
        }
    }
    DEFAULT_ENDPOINT.to_owned()
}

/// Some `/`-separated segment of `rest` is exactly `..`.
pub open spec fn has_parent_segment(rest: Seq<char>) -> bool {
    exists|i: int|
        0 <= i < split_char(rest, '/').len() && #[trigger] split_char(rest, '/')[i] == seq!['.', '.']
}

/// `s` without its leading `c` characters (`trim_start_matches(c)`).
pub open spec fn strip_leading(s: Seq<char>, c: char) -> Seq<char>
    decreases s.len(),
{
    if s.len() > 0 && s[0] == c {
        strip_leading(s.drop_first(), c)
    } else {
        s
    }
}

/// `s` without its trailing `c` characters (`trim_end_matches(c)`).
pub open spec fn strip_trailing(s: Seq<char>, c: char) -> Seq<char>
    decreases s.len(),
{
    if s.len() > 0 && s.last() == c {
        strip_trailing(s.drop_last(), c)
    } else {
        s
    }
}

/// Upstream URL of a proxied request: `None` for another bucket or a path
/// with a `..` segment; otherwise `<endpoint>/<bucket>/<rest>`, the
/// endpoint without trailing `/`, the rest without leading `/`, and the
/// raw query appended after `?` when it is non-empty.
pub open spec fn spec_proxy_target(
    bucket: Seq<char>,
    rest: Seq<char>,
    raw_query: Option<Seq<char>>,
    configured_bucket: Seq<char>,
    endpoint: Seq<char>,
) -> Option<Seq<char>> {
    if bucket != configured_bucket || has_parent_segment(rest) {
        None
    } else {
        let url = strip_trailing(endpoint, '/') + seq!['/'] + bucket + seq!['/'] + strip_leading(
            rest,
            '/',
        );
        Some(
            match raw_query {
                Some(q) if q.len() > 0 => url + seq!['?'] + q,
                _ => url,
            },
        )
    }
}

fn strip_leading_bound(s: &[char], c: char) -> (r: usize)
    ensures
        r <= s@.len(),
        s@.subrange(r as int, s@.len() as int) == strip_leading(s@, c),
{
    let n = s.len();
    let mut i: usize = 0;
    assert(s@.subrange(0, n as int) =~= s@);
    while i < n && s[i] == c
        invariant
            i <= n,
            n == s@.len(),
            strip_leading(s@.subrange(i as int, n as int), c) == strip_leading(s@, c),
        decreases n - i,
    {
        assert(s@.subrange(i as int, n as int).drop_first() =~= s@.subrange(i + 1, n as int));
        i = i + 1;
    }
    i
}

fn strip_trailing_bound(s: &[char], c: char) -> (r: usize)
    ensures
        r <= s@.len(),
        s@.subrange(0, r as int) == strip_trailing(s@, c),
{
    let mut j: usize = s.len();
    assert(s@.subrange(0, j as int) =~= s@);
    while j > 0 && s[j - 1] == c
        invariant
            j <= s@.len(),
            strip_trailing(s@.subrange(0, j as int), c) == strip_trailing(s@, c),
        decreases j,
    {
        assert(s@.subrange(0, j as int).drop_last() =~= s@.subrange(0, j - 1));
        j = j - 1;
    }
    j
}

/// Whether some `/`-separated segment of `rest` is `..`.
fn parent_segment(rest: &[char]) -> (r: bool)
    ensures
        r == has_parent_segment(rest@),
{
    let pieces = split_pieces(rest, '/');
    let dots: Vec<char> = vec!['.', '.'];
    let ghost segs = split_char(rest@, '/');
    let mut i: usize = 0;
    while i < pieces.len()
        invariant
            i <= pieces@.len(),
            views(pieces@) == segs,
            segs == split_char(rest@, '/'),
            dots@ == seq!['.', '.'],
            forall|k: int| 0 <= k < i ==> segs[k] != seq!['.', '.'],
        decreases pieces.len() - i,
    {
        assert(segs[i as int] == pieces@[i as int]@);
        if chars_eq(&pieces[i], &dots) {
            return true;
        }
        i = i + 1;
    }
    assert(segs.len() == pieces@.len());
    false
}

/// Upstream URL for `bucket`/`rest` with the raw query, given the bucket
/// this proxy serves and the endpoint it forwards to.
pub fn proxy_target(
    bucket: &str,
    rest: &str,
    raw_query: Option<&str>,
    configured_bucket: &str,
    endpoint: &str,
) -> (r: Option<String>)
    ensures
        match r {
            Some(u) => spec_proxy_target(
                bucket@,
                rest@,
                match raw_query {
                    Some(q) => Some(q@),
                    None => None,
                },
                configured_bucket@,
                endpoint@,
            ) == Some(u@),
            None => spec_proxy_target(
                bucket@,
                rest@,
                match raw_query {
                    Some(q) => Some(q@),
                    None => None,
                },
                configured_bucket@,
                endpoint@,
            ) is None,
        },
{
    let b = chars_of(bucket);
    let cb = chars_of(configured_bucket);
    if !chars_eq(&b, &cb) {
        return None;
    }
    let rv = chars_of(rest);
    if parent_segment(&rv) {
        return None;
    }
    let ev = chars_of(endpoint);
    let e_end = strip_trailing_bound(&ev, '/');
    let r_start = strip_leading_bound(&rv, '/');
    let mut url: Vec<char> = Vec::new();
    push_range(&mut url, &ev, 0, e_end);
    url.push('/');
    push_all(&mut url, &b);
    url.push('/');
    push_range(&mut url, &rv, r_start, rv.len());
    let ghost base = strip_trailing(endpoint@, '/') + seq!['/'] + bucket@ + seq!['/']
        + strip_leading(rest@, '/');
    assert(url@ =~= base);
    if let Some(q) = raw_query {
        let qv = chars_of(q);
        if qv.len() > 0 {
            url.push('?');
            push_all(&mut url, &qv);
            assert(url@ =~= base + seq!['?'] + q@);
        }
    }
    Some(string_of(&url))
}


// ---------------------------------------------------------------------------
// Laws
// ---------------------------------------------------------------------------

/// A path with a `..` segment is never proxied.
pub proof fn law_traversal_never_proxied(
    bucket: Seq<char>,
    rest: Seq<char>,
    raw_query: Option<Seq<char>>,
    configured_bucket: Seq<char>,
    endpoint: Seq<char>,
)
    requires
        has_parent_segment(rest),
    ensures
        spec_proxy_target(bucket, rest, raw_query, configured_bucket, endpoint) is None,
{
}

/// Only the configured bucket is proxied, and its URL always lies under
/// `<endpoint>/<bucket>/`.
pub proof fn law_proxied_url_stays_in_bucket(
    bucket: Seq<char>,
    rest: Seq<char>,
    raw_query: Option<Seq<char>>,
    configured_bucket: Seq<char>,
    endpoint: Seq<char>,
)
    requires
        spec_proxy_target(bucket, rest, raw_query, configured_bucket, endpoint) is Some,
    ensures
        bucket == configured_bucket,
        ({
            let u = spec_proxy_target(bucket, rest, raw_query, configured_bucket, endpoint)->0;
            let head = strip_trailing(endpoint, '/') + seq!['/'] + configured_bucket + seq!['/'];
            u.len() >= head.len() && u.subrange(0, head.len() as int) == head
        }),
{
    let u = spec_proxy_target(bucket, rest, raw_query, configured_bucket, endpoint)->0;
    let head = strip_trailing(endpoint, '/') + seq!['/'] + configured_bucket + seq!['/'];
    let url = head + strip_leading(rest, '/');
    assert(url.subrange(0, head.len() as int) =~= head);
    match raw_query {
        Some(q) => {
            if q.len() > 0 {
                assert((url + seq!['?'] + q).subrange(0, head.len() as int) =~= head);
            }
        },
        None => {},
    }
}

} // verus!

//! Ids as 128-bit values: reading an id from text, and lists of ids.
use vstd::prelude::*;

use crate::text::string_views;

verus! {

broadcast use vstd::string::group_string_axioms;

/// What `uuid::Uuid::parse_str` gives for the text: the id's 128-bit
/// value, or `None` when the text is not an id.
pub uninterp spec fn uuid_value(s: Seq<char>) -> Option<u128>;

/// `uuid::Uuid::parse_str`, the id taken as its 128-bit value; the result
/// is whatever the parser gives for the text, named without spelling out
/// the accepted forms.
#[verifier::external_body]
pub(crate) fn parse_uuid(s: &str) -> (r: Option<u128>)
    ensures
        r == uuid_value(s@),
{
    match uuid::Uuid::parse_str(s) {
        Ok(u) => Some(u.as_u128()),
        Err(_) => None,
    }
}

/// The ids among the texts, in order; texts that are not ids are skipped.
pub open spec fn parsed_ids(texts: Seq<Seq<char>>) -> Seq<u128>
    decreases texts.len(),
{
    if texts.len() == 0 {
        Seq::empty()
    } else {
        parsed_ids(texts.drop_last()) + match uuid_value(texts.last()) {
            Some(v) => seq![v],
            None => Seq::empty(),
        }
    }
}

/// An id list: every item must be a text that is an id; `None` otherwise.
pub open spec fn spec_id_list(items: Seq<Option<Seq<char>>>) -> Option<Seq<u128>>
    decreases items.len(),
{
    if items.len() == 0 {
        Some(Seq::empty())
    } else {
        match (spec_id_list(items.drop_last()), items.last()) {
            (Some(prev), Some(t)) => match uuid_value(t) {
                Some(v) => Some(prev.push(v)),
                None => None,
            },
            _ => None,
        }
    }
}

/// The views of optional texts.
pub open spec fn opt_views(items: Seq<Option<String>>) -> Seq<Option<Seq<char>>> {
    items.map_values(|o: Option<String>| match o {
        Some(s) => Some(s@),
        None => None,
    })
}

/// Reads a list of ids: each item is the text of one entry (`None` for an
/// entry that is not text); the whole list is refused when any entry is
/// not an id.
pub fn parse_id_list(items: &[Option<String>]) -> (r: Option<Vec<u128>>)
    ensures
        match spec_id_list(opt_views(items@)) {
            Some(v) => r matches Some(x) && x@ == v,
            None => r is None,
        },
{
    let ghost vs = opt_views(items@);
    let mut out: Vec<u128> = Vec::new();
    let mut i: usize = 0;
    while i < items.len()
        invariant
            i <= items@.len(),
            vs == opt_views(items@),
            spec_id_list(vs.take(i as int)) == Some(out@),
        decreases items.len() - i,
    {
        proof {
            assert(vs.take(i + 1).drop_last() =~= vs.take(i as int));
            assert(vs.take(i + 1).last() == vs[i as int]);
        }
        match &items[i] {
            Some(t) => match parse_uuid(t.as_str()) {
                Some(v) => {
                    out.push(v);
                },
                None => {
                    proof {
                        lemma_id_list_stays_none(vs, i as int + 1);
                    }
                    return None;
                },
            },
            None => {
                proof {
                    lemma_id_list_stays_none(vs, i as int + 1);
                }
                return None;
            },
        }
        i = i + 1;
    }
    proof {
        assert(vs.take(items@.len() as int) =~= vs);
    }
    Some(out)
}

proof fn lemma_id_list_stays_none(items: Seq<Option<Seq<char>>>, k: int)
    requires
        0 <= k <= items.len(),
        spec_id_list(items.take(k)) is None,
    ensures
        spec_id_list(items) is None,
    decreases items.len() - k,
{
    if k < items.len() {
        assert(items.take(k + 1).drop_last() =~= items.take(k));
        lemma_id_list_stays_none(items, k + 1);
    } else {
        assert(items.take(k) =~= items);
    }
}

} // verus!

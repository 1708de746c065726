//! Project, cycle and module user-property rules.
use vstd::prelude::*;

use crate::routes::project::FORBIDDEN_MSG;
use crate::text::str_eq;

verus! {

broadcast use vstd::string::group_string_axioms;

/// Malformed patch (non-numeric `sort_order`).
pub const INVALID_DETAIL_MSG: &'static str = "Please provide valid detail";

/// Integrity violation (explicit null on a required column).
pub const PAYLOAD_INVALID_MSG: &'static str = "The payload is not valid";

/// Project role admin (20), member (15) or guest (5).
pub fn guard_userprops(role: Option<i16>) -> (r: Result<(), String>)
    ensures
        r is Ok <==> (role == Some(20i16) || role == Some(15i16) || role == Some(5i16)),
        r matches Err(e) ==> e@ == FORBIDDEN_MSG@,
{
    match role {
        Some(20) | Some(15) | Some(5) => Ok(()),
        _ => Err(FORBIDDEN_MSG.to_owned()),
    }
}

/// HTTP status of a patch that finds no row: the project scope creates the
/// row (200); cycle and module scopes miss (404).
pub fn missing_prop_patch(scope: &str) -> (r: u16)
    ensures
        r == (if scope@ == "project"@ {
            200u16
        } else {
            404u16
        }),
{
    if str_eq(scope, "project") {
        200
    } else {
        404
    }
}

} // verus!

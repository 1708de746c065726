//! Issue subscription guards.
use vstd::prelude::*;

use crate::routes::project::FORBIDDEN_MSG;

verus! {

broadcast use vstd::string::group_string_axioms;

/// Subscribing twice.
pub const DUP_SUBSCRIBE_MSG: &'static str = "User already subscribed to the issue.";

/// Subscribe, unsubscribe and status: any active project member, guest
/// included.
pub fn guard_lite(role: Option<i16>) -> (r: Result<(), String>)
    ensures
        r is Ok <==> role is Some,
        r matches Err(e) ==> e@ == FORBIDDEN_MSG@,
{
    match role {
        Some(_) => Ok(()),
        None => Err(FORBIDDEN_MSG.to_owned()),
    }
}

/// Removing a subscriber: admin (20) or member (15).
pub fn guard_subscriber_remove(role: Option<i16>) -> (r: Result<(), String>)
    ensures
        r is Ok <==> (role == Some(20i16) || role == Some(15i16)),
        r matches Err(e) ==> e@ == FORBIDDEN_MSG@,
{
    match role {
        Some(20) | Some(15) => Ok(()),
        _ => Err(FORBIDDEN_MSG.to_owned()),
    }
}

} // verus!

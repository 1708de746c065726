//! Issue and comment reaction rules.
use vstd::prelude::*;

use crate::routes::project::FORBIDDEN_MSG;
use crate::text::{chars_of, trim, trim_chars};

verus! {

broadcast use vstd::string::group_string_axioms;

/// Duplicate issue reaction (generic integrity message).
pub const ISSUE_DUP_MSG: &'static str = "The payload is not valid";

/// Duplicate comment reaction.
pub const COMMENT_DUP_MSG: &'static str = "Reaction already exists for the user";

/// Missing `reaction` field.
pub const REACTION_REQUIRED_MSG: &'static str = "This field is required.";

/// Blank `reaction` field.
pub const REACTION_BLANK_MSG: &'static str = "This field may not be blank.";

/// Project role admin (20), member (15) or guest (5).
pub fn guard_reactions(role: Option<i16>) -> (r: Result<(), String>)
    ensures
        r is Ok <==> (role == Some(20i16) || role == Some(15i16) || role == Some(5i16)),
        r matches Err(e) ==> e@ == FORBIDDEN_MSG@,
{
    match role {
        Some(20) | Some(15) | Some(5) => Ok(()),
        _ => Err(FORBIDDEN_MSG.to_owned()),
    }
}

/// A reaction row may be deleted only by its actor (ids as 128-bit
/// values).
pub fn reaction_scope_ok(row_actor_id: u128, user_id: u128) -> (r: bool)
    ensures
        r == (row_actor_id == user_id),
{
    row_actor_id == user_id
}

/// Create body.
#[derive(Debug, Clone)]
pub struct ReactionBody {
    pub reaction: Option<String>,
}

/// The `reaction` field must be present and not blank (after trimming);
/// the error is the field message.
pub fn validate_reaction(body: &ReactionBody) -> (r: Result<String, String>)
    ensures
        match body.reaction {
            None => r matches Err(e) && e@ == REACTION_REQUIRED_MSG@,
            Some(x) => if trim(x@).len() == 0 {
                r matches Err(e) && e@ == REACTION_BLANK_MSG@
            } else {
                r matches Ok(v) && v@ == x@
            },
        },
{
    match &body.reaction {
        None => Err(REACTION_REQUIRED_MSG.to_owned()),
        Some(r) => {
            let v = chars_of(r.as_str());
            if trim_chars(&v).len() == 0 {
                Err(REACTION_BLANK_MSG.to_owned())
            } else {
                Ok(r.as_str().to_owned())
            }
        },
    }
}

} // verus!

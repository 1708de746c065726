//! State rules: create and patch validation, the delete guard and the
//! mark-default and intake-state role guards.
use vstd::prelude::*;

use crate::routes::project::FORBIDDEN_MSG;
use crate::text::{chars_of, str_eq, str_in, str_listed, trim, trim_chars};

verus! {

broadcast use vstd::string::group_string_axioms;

/// Create body.
#[derive(Debug, Clone)]
pub struct CreateState {
    pub name: String,
    pub group: String,
    pub color: String,
}

/// State as listed; the id is its 128-bit value.
#[derive(Debug, Clone)]
pub struct StateOut {
    pub id: u128,
    pub name: String,
    pub group: String,
}

/// Patch body.
#[derive(Debug, Clone, Default)]
pub struct PatchState {
    pub name: Option<String>,
    pub group: Option<String>,
    pub color: Option<String>,
}

/// Groups a state may be created in (triage is system-managed).
pub const ALLOWED_GROUPS: [&'static str; 5] = [
    "backlog",
    "unstarted",
    "started",
    "completed",
    "cancelled",
];

/// Intake request on a project without a triage state.
pub const TRIAGE_MISS_MSG: &'static str = "Triage state not found";

/// Lookup miss.
pub const STATE_NOT_FOUND_MSG: &'static str = "State not found";

/// Deleting the default state.
pub const DELETE_DEFAULT_MSG: &'static str = "Default state cannot be deleted";

/// Deleting a state that still has issues.
pub const DELETE_NON_EMPTY_MSG: &'static str = "The state is not empty, only empty states can be deleted";

/// The first rule a create body breaks, if any.
pub open spec fn create_state_error(b: CreateState) -> Option<Seq<char>> {
    if trim(b.name@).len() == 0 {
        Some("name is required"@)
    } else if b.name@.len() > 255 {
        Some("name max length 255"@)
    } else if b.group@ == "triage"@ {
        Some("Cannot create triage state"@)
    } else if !str_listed(ALLOWED_GROUPS@, b.group@) {
        Some("unknown group "@ + b.group@)
    } else if trim(b.color@).len() == 0 {
        Some("color is required"@)
    } else {
        None
    }
}

/// Validates a create body.
pub fn validate_create(body: &CreateState) -> (r: Result<(), String>)
    ensures
        match create_state_error(*body) {
            Some(m) => r matches Err(e) && e@ == m,
            None => r is Ok,
        },
{
    let name = chars_of(body.name.as_str());
    if trim_chars(&name).len() == 0 {
        return Err("name is required".to_owned());
    }
    if name.len() > 255 {
        return Err("name max length 255".to_owned());
    }
    if str_eq(body.group.as_str(), "triage") {
        return Err("Cannot create triage state".to_owned());
    }
    let list: &[&str] = &ALLOWED_GROUPS;
    assert(list@ == ALLOWED_GROUPS@);
    if !str_in(list, body.group.as_str()) {
        let mut m = String::from_str("unknown group ");
        m.append(body.group.as_str());
        return Err(m);
    }
    let color = chars_of(body.color.as_str());
    if trim_chars(&color).len() == 0 {
        return Err("color is required".to_owned());
    }
    Ok(())
}

/// The first rule a patch body breaks, if any.
pub open spec fn patch_state_error(b: PatchState) -> Option<Seq<char>> {
    if b.name is Some && (trim(b.name->0@).len() == 0 || b.name->0@.len() > 255) {
        Some("Invalid name"@)
    } else if b.group is Some && (b.group->0@ == "triage"@ || !str_listed(
        ALLOWED_GROUPS@,
        b.group->0@,
    )) {
        Some("Invalid group"@)
    } else {
        None
    }
}

/// Validates a patch body: a given name must be non-blank and at most 255
/// characters; a given group must be an allowed, non-triage group.
pub fn validate_patch(body: &PatchState) -> (r: Result<(), String>)
    ensures
        match patch_state_error(*body) {
            Some(m) => r matches Err(e) && e@ == m,
            None => r is Ok,
        },
{
    if let Some(name) = &body.name {
        let v = chars_of(name.as_str());
        if trim_chars(&v).len() == 0 || v.len() > 255 {
            return Err("Invalid name".to_owned());
        }
    }
    if let Some(group) = &body.group {
        let list: &[&str] = &ALLOWED_GROUPS;
        assert(list@ == ALLOWED_GROUPS@);
        if str_eq(group.as_str(), "triage") || !str_in(list, group.as_str()) {
            return Err("Invalid group".to_owned());
        }
    }
    Ok(())
}

/// The default state and states with issues cannot be deleted.
pub fn guard_delete(is_default: bool, issue_count: i64) -> (r: Result<(), String>)
    ensures
        is_default ==> (r matches Err(e) && e@ == DELETE_DEFAULT_MSG@),
        !is_default && issue_count > 0 ==> (r matches Err(e) && e@ == DELETE_NON_EMPTY_MSG@),
        !is_default && issue_count <= 0 ==> r is Ok,
{
    if is_default {
        return Err(DELETE_DEFAULT_MSG.to_owned());
    }
    if issue_count > 0 {
        return Err(DELETE_NON_EMPTY_MSG.to_owned());
    }
    Ok(())
}

/// Only a project admin (20) may mark the default state.
pub fn guard_mark_default(role: Option<i16>) -> (r: Result<(), String>)
    ensures
        r is Ok <==> role == Some(20i16),
        r matches Err(e) ==> e@ == FORBIDDEN_MSG@,
{
    match role {
        Some(20) => Ok(()),
        _ => Err(FORBIDDEN_MSG.to_owned()),
    }
}

/// Intake state: project role admin (20), member (15) or guest (5).
pub fn guard_intake_state(role: Option<i16>) -> (r: Result<(), String>)
    ensures
        r is Ok <==> (role == Some(20i16) || role == Some(15i16) || role == Some(5i16)),
        r matches Err(e) ==> e@ == FORBIDDEN_MSG@,
{
    match role {
        Some(20) | Some(15) | Some(5) => Ok(()),
        _ => Err(FORBIDDEN_MSG.to_owned()),
    }
}

} // verus!

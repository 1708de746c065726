//! The project gate shared by the project-scoped endpoints.
use vstd::prelude::*;

verus! {

/// A project-scoped request passes when the member's role passes the
/// endpoint's own role guard, or, failing that, when the requester is an
/// active member of the project and also an admin of the workspace (the
/// workspace-admin fallback never lets a non-member in).
pub fn project_gate_allows(role_ok: bool, is_member: bool, is_workspace_admin: bool) -> (r: bool)
    ensures
        r == (role_ok || (is_member && is_workspace_admin)),
{
    role_ok || (is_member && is_workspace_admin)
}

} // verus!

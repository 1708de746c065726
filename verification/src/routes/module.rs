//! Module rules: status normalisation, role and state guards, link-URL
//! normalisation and validation, `?fields=` parsing, create validation,
//! the create and patch field checks (lead included), body dates and the
//! list/detail SQL builders.
use vstd::prelude::*;

use crate::body::FieldValue;
use crate::ids::uuid_value;
use crate::routes::project::FORBIDDEN_MSG;
use crate::text::{
    chars_of, has_char, has_char_exec, has_ws, has_ws_exec, matches_ci_at, matches_ci_at_exec,
    push_range, split_char, split_trim_nonempty, starts_with, starts_with_exec, str_eq, string_of,
    string_views, strings_of, trim, trim_chars, trimmed_nonempty,
};

verus! {

broadcast use vstd::string::group_string_axioms;

/// Duplicate module name within the project.
pub const DUP_NAME_MSG: &'static str = "Module with this name already exists";

/// Detail miss.
pub const MODULE_NOT_FOUND_MSG: &'static str = "Module not found";

/// Patch of an archived module.
pub const ARCHIVED_IMMUTABLE_MSG: &'static str = "Archived module cannot be updated";

/// Start date after target date.
pub const START_EXCEEDS_TARGET_MSG: &'static str = "Start date cannot exceed target date";

/// Adding an empty issue list to a module.
pub const ISSUES_REQUIRED_MSG: &'static str = "Issues are required";

/// Grouping and sub-grouping by the same key.
pub const GROUP_DUP_MSG: &'static str = "Group by and sub group by cannot have same parameters";

/// Archiving a module that is neither completed nor cancelled.
pub const ARCHIVE_STATUS_MSG: &'static str = "Only completed or cancelled modules can be archived";

/// Malformed link URL.
pub const INVALID_URL_MSG: &'static str = "Invalid URL format.";

/// Duplicate link URL on create.
pub const URL_EXISTS_MSG: &'static str = "URL already exists.";

/// Duplicate link URL on update (the wording names an issue, as served).
pub const URL_EXISTS_ISSUE_MSG: &'static str = "URL already exists for this Issue";

/// Integrity violation (duplicate favorite).
pub const PAYLOAD_INVALID_MSG: &'static str = "The payload is not valid";

/// Malformed body.
pub const VALID_DETAIL_MSG: &'static str = "Please provide valid detail";

/// Permission-class denial.
pub const PERMISSION_DETAIL_MSG: &'static str = "You do not have permission to perform this action.";

// ---------------------------------------------------------------------------
// Status
// ---------------------------------------------------------------------------

/// The module statuses.
pub open spec fn is_module_status(s: Seq<char>) -> bool {
    ||| s == "backlog"@
    ||| s == "planned"@
    ||| s == "in-progress"@
    ||| s == "paused"@
    ||| s == "completed"@
    ||| s == "cancelled"@
}

/// `"<s>" is not a valid choice.`
pub open spec fn invalid_choice_msg(s: Seq<char>) -> Seq<char> {
    "\""@ + s + "\" is not a valid choice."@
}

/// Builds `"<s>" is not a valid choice.`
pub fn invalid_choice(s: &str) -> (r: String)
    ensures
        r@ == invalid_choice_msg(s@),
{
    let mut r = String::from_str("\"");
    r.append(s);
    r.append("\" is not a valid choice.");
    r
}

fn module_status_exec(s: &str) -> (r: bool)
    ensures
        r == is_module_status(s@),
{
    str_eq(s, "backlog") || str_eq(s, "planned") || str_eq(s, "in-progress") || str_eq(
        s,
        "paused",
    ) || str_eq(s, "completed") || str_eq(s, "cancelled")
}

/// Status of a new or patched module: absent means `planned`; a known
/// status is kept; anything else is refused.
pub fn normalize_status(raw: Option<&str>) -> (r: Result<String, String>)
    ensures
        match raw {
            None => r matches Ok(v) && v@ == "planned"@,
            Some(s) => if is_module_status(s@) {
                r matches Ok(v) && v@ == s@
            } else {
                r matches Err(e) && e@ == invalid_choice_msg(s@)
            },
        },
{
    match raw {
        None => Ok("planned".to_owned()),
        Some(s) => {
            if module_status_exec(s) {
                Ok(s.to_owned())
            } else {
                Err(invalid_choice(s))
            }
        },
    }
}

// ---------------------------------------------------------------------------
// Guards
// ---------------------------------------------------------------------------

/// Start and target dates, as day numbers, must not be inverted.
pub fn guard_date_order(start: Option<i32>, target: Option<i32>) -> (r: Result<(), String>)
    ensures
        r is Err <==> (start is Some && target is Some && start->0 > target->0),
        r matches Err(e) ==> e@ == START_EXCEEDS_TARGET_MSG@,
{
    if let (Some(s), Some(t)) = (start, target) {
        if s > t {
            return Err(START_EXCEEDS_TARGET_MSG.to_owned());
        }
    }
    Ok(())
}

/// Refuses a duplicate name.
pub fn guard_dup_name(exists: bool) -> (r: Result<(), String>)
    ensures
        r is Err <==> exists,
        r matches Err(e) ==> e@ == DUP_NAME_MSG@,
{
    if exists {
        return Err(DUP_NAME_MSG.to_owned());
    }
    Ok(())
}

/// Archived modules are immutable.
pub fn guard_patch(archived: bool) -> (r: Result<(), String>)
    ensures
        r is Err <==> archived,
        r matches Err(e) ==> e@ == ARCHIVED_IMMUTABLE_MSG@,
{
    if archived {
        return Err(ARCHIVED_IMMUTABLE_MSG.to_owned());
    }
    Ok(())
}

/// Only completed or cancelled modules can be archived.
pub fn guard_archive_status(status: &str) -> (r: Result<(), String>)
    ensures
        r is Ok <==> (status@ == "completed"@ || status@ == "cancelled"@),
        r matches Err(e) ==> e@ == ARCHIVE_STATUS_MSG@,
{
    if str_eq(status, "completed") || str_eq(status, "cancelled") {
        Ok(())
    } else {
        Err(ARCHIVE_STATUS_MSG.to_owned())
    }
}

/// Adding issues needs at least one issue.
pub fn guard_issues_present(n: usize) -> (r: Result<(), String>)
    ensures
        r is Err <==> n == 0,
        r matches Err(e) ==> e@ == ISSUES_REQUIRED_MSG@,
{
    if n == 0 {
        return Err(ISSUES_REQUIRED_MSG.to_owned());
    }
    Ok(())
}

/// Project role admin (20), member (15) or guest (5).
pub fn guard_amg(role: Option<i16>) -> (r: Result<(), String>)
    ensures
        r is Ok <==> (role == Some(20i16) || role == Some(15i16) || role == Some(5i16)),
        r matches Err(e) ==> e@ == FORBIDDEN_MSG@,
{
    match role {
        Some(20) | Some(15) | Some(5) => Ok(()),
        _ => Err(FORBIDDEN_MSG.to_owned()),
    }
}

/// Project role admin (20) or member (15).
pub fn guard_am(role: Option<i16>) -> (r: Result<(), String>)
    ensures
        r is Ok <==> (role == Some(20i16) || role == Some(15i16)),
        r matches Err(e) ==> e@ == FORBIDDEN_MSG@,
{
    match role {
        Some(20) | Some(15) => Ok(()),
        _ => Err(FORBIDDEN_MSG.to_owned()),
    }
}

/// Read access: any active project member.
pub fn guard_safe_member(has_membership: bool) -> (r: Result<(), String>)
    ensures
        r is Ok <==> has_membership,
        r matches Err(e) ==> e@ == PERMISSION_DETAIL_MSG@,
{
    if has_membership {
        Ok(())
    } else {
        Err(PERMISSION_DETAIL_MSG.to_owned())
    }
}

/// Write access to project entities: admin (20) or member (15).
pub fn guard_entity_write(role: Option<i16>) -> (r: Result<(), String>)
    ensures
        r is Ok <==> (role == Some(20i16) || role == Some(15i16)),
        r matches Err(e) ==> e@ == PERMISSION_DETAIL_MSG@,
{
    match role {
        Some(20) | Some(15) => Ok(()),
        _ => Err(PERMISSION_DETAIL_MSG.to_owned()),
    }
}

/// Lite access: any active project member.
pub fn guard_lite(has_membership: bool) -> (r: Result<(), String>)
    ensures
        r is Ok <==> has_membership,
        r matches Err(e) ==> e@ == PERMISSION_DETAIL_MSG@,
{
    if has_membership {
        Ok(())
    } else {
        Err(PERMISSION_DETAIL_MSG.to_owned())
    }
}

// ---------------------------------------------------------------------------
// Link URLs
// ---------------------------------------------------------------------------

/// Trimmed URL, with `http://` prepended when it is non-empty and has no
/// `http://` or `https://` scheme.
pub open spec fn spec_normalize_link_url(raw: Seq<char>) -> Seq<char> {
    let t = trim(raw);
    if t.len() == 0 || starts_with(t, "http://"@) || starts_with(t, "https://"@) {
        t
    } else {
        "http://"@ + t
    }
}

/// Prepends `http://` to a scheme-less link URL.
pub fn normalize_link_url(raw: &str) -> (r: String)
    ensures
        r@ == spec_normalize_link_url(raw@),
{
    let v = chars_of(raw);
    let t = trim_chars(&v);
    let http = chars_of("http://");
    let https = chars_of("https://");
    if t.len() == 0 || starts_with_exec(&t, &http) || starts_with_exec(&t, &https) {
        string_of(&t)
    } else {
        let mut r = String::from_str("http://");
        let ts = string_of(&t);
        r.append(ts.as_str());
        r
    }
}

/// The URL after its `http://` or `https://` scheme.
pub open spec fn link_rest(u: Seq<char>) -> Option<Seq<char>> {
    if starts_with(u, "http://"@) {
        Some(u.subrange(7, u.len() as int))
    } else if starts_with(u, "https://"@) {
        Some(u.subrange(8, u.len() as int))
    } else {
        None
    }
}

/// Characters that end the host of a link URL.
pub open spec fn is_host_end(c: char) -> bool {
    c == '/' || c == '?' || c == '#' || c == ':'
}

/// Index of the first host-ending character at or after `k` (or the end).
pub open spec fn host_end_from(s: Seq<char>, k: int) -> int
    decreases s.len() - k,
{
    if k < 0 || k >= s.len() {
        s.len() as int
    } else if is_host_end(s[k]) {
        k
    } else {
        host_end_from(s, k + 1)
    }
}

/// The host: everything before the first `/`, `?`, `#` or `:`.
pub open spec fn link_host(rest: Seq<char>) -> Seq<char> {
    rest.subrange(0, host_end_from(rest, 0))
}

/// Absolute http(s) URL with a non-empty, whitespace-free host that has a
/// dot or is `localhost` (ASCII case-insensitive).
pub open spec fn spec_valid_link_url(u: Seq<char>) -> bool {
    match link_rest(u) {
        None => false,
        Some(rest) => {
            let h = link_host(rest);
            &&& h.len() > 0
            &&& !has_ws(h)
            &&& (has_char(h, '.') || (h.len() == 9 && matches_ci_at(h, "localhost"@, 0)))
        },
    }
}

proof fn lemma_host_end_bounds(s: Seq<char>, k: int)
    requires
        0 <= k,
    ensures
        k <= host_end_from(s, k) <= s.len() || (k > s.len() && host_end_from(s, k) == s.len()),
    decreases s.len() - k,
{
    if k < s.len() && !is_host_end(s[k]) {
        lemma_host_end_bounds(s, k + 1);
    }
}

/// Whether a link URL is an absolute http(s) URL with a plausible host.
pub fn valid_link_url(url: &str) -> (r: bool)
    ensures
        r == spec_valid_link_url(url@),
{
    let u = chars_of(url);
    let http = chars_of("http://");
    let https = chars_of("https://");
    let start: usize;
    if starts_with_exec(&u, &http) {
        proof {
            reveal_strlit("http://");
        }
        start = 7;
    } else if starts_with_exec(&u, &https) {
        proof {
            reveal_strlit("https://");
        }
        start = 8;
    } else {
        return false;
    }
    let mut rest: Vec<char> = Vec::new();
    push_range(&mut rest, &u, start, u.len());
    assert(link_rest(u@) == Some(rest@));
    let mut i: usize = 0;
    while i < rest.len() && !(rest[i] == '/' || rest[i] == '?' || rest[i] == '#' || rest[i] == ':')
        invariant
            i <= rest@.len(),
            host_end_from(rest@, 0) == host_end_from(rest@, i as int),
        decreases rest.len() - i,
    {
        i = i + 1;
    }
    let mut host: Vec<char> = Vec::new();
    push_range(&mut host, &rest, 0, i);
    assert(host@ == link_host(rest@));
    if host.len() == 0 || has_ws_exec(&host) {
        return false;
    }
    let localhost = chars_of("localhost");
    proof {
        reveal_strlit("localhost");
    }
    has_char_exec(&host, '.') || (host.len() == 9 && matches_ci_at_exec(&host, &localhost, 0))
}

// ---------------------------------------------------------------------------
// `?fields=` and create validation
// ---------------------------------------------------------------------------

/// Query of the module list.
#[derive(Debug, Clone, Default)]
pub struct ModuleListQuery {
    pub fields: Option<String>,
}

/// Query of the module-link list.
#[derive(Debug, Clone, Default)]
pub struct LinkListQuery {
    pub fields: Option<String>,
}

/// Query of a module's issue list.
#[derive(Debug, Clone, Default)]
pub struct ModuleIssuesQuery {
    pub cursor: Option<String>,
    pub per_page: Option<String>,
    pub order_by: Option<String>,
    pub group_by: Option<String>,
    pub sub_group_by: Option<String>,
}

impl ModuleIssuesQuery {
    /// Grouping and sub-grouping are both given, non-empty and equal.
    pub open spec fn spec_group_conflict(self) -> bool {
        match (self.group_by, self.sub_group_by) {
            (Some(g), Some(s)) => g@.len() > 0 && g@ == s@,
            _ => false,
        }
    }

    /// Rejects grouping and sub-grouping by the same key.
    pub fn check_grouping(&self) -> (r: Result<(), String>)
        ensures
            r is Err <==> self.spec_group_conflict(),
            r matches Err(e) ==> e@ == GROUP_DUP_MSG@,
    {
        if let (Some(g), Some(s)) = (&self.group_by, &self.sub_group_by) {
            if g.unicode_len() > 0 && str_eq(g.as_str(), s.as_str()) {
                return Err(GROUP_DUP_MSG.to_owned());
            }
        }
        Ok(())
    }
}

/// The requested field names of a `?fields=a,b` value: comma-separated,
/// trimmed, empty names dropped.
pub fn parse_fields(raw: Option<&str>) -> (r: Vec<String>)
    ensures
        string_views(r@) == trimmed_nonempty(
            split_char(
                match raw {
                    Some(s) => s@,
                    None => Seq::<char>::empty(),
                },
                ',',
            ),
        ),
{
    let v = match raw {
        Some(s) => chars_of(s),
        None => Vec::new(),
    };
    let pieces = split_trim_nonempty(&v, ',');
    strings_of(&pieces)
}

/// Create body; dates are day numbers.
#[derive(Debug, Clone)]
pub struct CreateModule {
    pub name: String,
    pub start_date: Option<i32>,
    pub target_date: Option<i32>,
}

/// Patch body; dates are day numbers.
#[derive(Debug, Clone, Default)]
pub struct PatchModule {
    pub name: Option<String>,
    pub start_date: Option<i32>,
    pub target_date: Option<i32>,
}

/// The first rule a create body breaks, if any.
pub open spec fn create_module_error(b: CreateModule) -> Option<Seq<char>> {
    if trim(b.name@).len() == 0 {
        Some("name is required"@)
    } else if b.name@.len() > 255 {
        Some("name max length 255"@)
    } else if b.start_date is Some && b.target_date is Some && b.start_date->0
        > b.target_date->0 {
        Some(START_EXCEEDS_TARGET_MSG@)
    } else {
        None
    }
}

/// Validates a create body: name present and at most 255 characters,
/// dates in order.
pub fn validate_create(body: &CreateModule) -> (r: Result<(), String>)
    ensures
        match create_module_error(*body) {
            Some(m) => r matches Err(e) && e@ == m,
            None => r is Ok,
        },
{
    let name = chars_of(body.name.as_str());
    if trim_chars(&name).len() == 0 {
        return Err("name is required".to_owned());
    }
    if name.len() > 255 {
        return Err("name max length 255".to_owned());
    }
    guard_date_order(body.start_date, body.target_date)?;
    Ok(())
}

// ---------------------------------------------------------------------------
// Create and patch field checks
// ---------------------------------------------------------------------------

/// A required field is missing.
pub const FIELD_REQUIRED_MSG: &'static str = "This field is required.";

/// A text field is blank.
pub const FIELD_BLANK_MSG: &'static str = "This field may not be blank.";

/// A name longer than 255 characters.
pub const NAME_TOO_LONG_MSG: &'static str = "Ensure this field has no more than 255 characters.";

/// A date field of a module body, as the handler reads it.
#[derive(Debug, Clone)]
pub enum DateInput {
    /// The key is missing.
    Missing,
    /// The key holds something other than a string.
    NotText,
    /// The key holds the text `raw`; `parsed` is the day number of the
    /// date that text denotes, if it denotes one.
    Text { raw: String, parsed: Option<i32> },
}

/// Checked fields of a module create body; dates are day numbers.
#[derive(Debug, Clone)]
pub struct ModuleDraft {
    pub name: String,
    pub start_date: Option<i32>,
    pub target_date: Option<i32>,
    pub status: String,
}

/// The date a create body sets (`Some(None)` for none), or `None` when
/// the text is not a date. Only exactly empty text counts as no date.
pub open spec fn create_date(d: DateInput) -> Option<Option<i32>> {
    match d {
        DateInput::Text { raw, parsed } => if raw@.len() == 0 {
            Some(None)
        } else {
            match parsed {
                Some(v) => Some(Some(v)),
                None => None,
            }
        },
        _ => Some(None),
    }
}

/// The date after a patch, from the current one, or `None` when the text
/// is not a date: blank text clears it; a missing or non-text key keeps it.
pub open spec fn patch_date(cur: Option<i32>, d: DateInput) -> Option<Option<i32>> {
    match d {
        DateInput::Text { raw, parsed } => if trim(raw@).len() == 0 {
            Some(None)
        } else {
            match parsed {
                Some(v) => Some(Some(v)),
                None => None,
            }
        },
        _ => Some(cur),
    }
}

/// The message for a bad name, if it is bad: blank, or over 255
/// characters.
pub open spec fn module_name_error(name: Seq<char>) -> Option<Seq<char>> {
    if trim(name).len() == 0 {
        Some(FIELD_BLANK_MSG@)
    } else if name.len() > 255 {
        Some(NAME_TOO_LONG_MSG@)
    } else {
        None
    }
}

/// The error a status gives, if any.
pub open spec fn status_error(status: Option<Seq<char>>) -> Option<(Seq<char>, Seq<char>)> {
    match status {
        Some(st) => if is_module_status(st) {
            None
        } else {
            Some(("status"@, invalid_choice_msg(st)))
        },
        None => None,
    }
}

/// The first error of a create body, as `(key, message)`, in the order
/// the handler checks: name, start date, target date, date order, status.
pub open spec fn module_create_error(
    name: Option<Seq<char>>,
    start: DateInput,
    target: DateInput,
    status: Option<Seq<char>>,
) -> Option<(Seq<char>, Seq<char>)> {
    match name {
        None => Some(("name"@, FIELD_REQUIRED_MSG@)),
        Some(n) => match module_name_error(n) {
            Some(m) => Some(("name"@, m)),
            None => match (create_date(start), create_date(target)) {
                (Some(s), Some(t)) => if s is Some && t is Some && s->0 > t->0 {
                    Some(("non_field_errors"@, START_EXCEEDS_TARGET_MSG@))
                } else {
                    status_error(status)
                },
                _ => Some(("error"@, VALID_DETAIL_MSG@)),
            },
        },
    }
}

fn name_error(name: &str) -> (r: Option<&'static str>)
    ensures
        match module_name_error(name@) {
            Some(m) => r matches Some(x) && x@ == m,
            None => r is None,
        },
{
    let v = chars_of(name);
    if trim_chars(&v).len() == 0 {
        Some(FIELD_BLANK_MSG)
    } else if v.len() > 255 {
        Some(NAME_TOO_LONG_MSG)
    } else {
        None
    }
}

fn date_for_create(d: &DateInput) -> (r: Option<Option<i32>>)
    ensures
        r == create_date(*d),
{
    match d {
        DateInput::Text { raw, parsed } => {
            if raw.unicode_len() == 0 {
                Some(None)
            } else {
                match parsed {
                    Some(v) => Some(Some(*v)),
                    None => None,
                }
            }
        },
        _ => Some(None),
    }
}

fn date_for_patch(cur: Option<i32>, d: &DateInput) -> (r: Option<Option<i32>>)
    ensures
        r == patch_date(cur, *d),
{
    match d {
        DateInput::Text { raw, parsed } => {
            let v = chars_of(raw.as_str());
            if trim_chars(&v).len() == 0 {
                Some(None)
            } else {
                match parsed {
                    Some(p) => Some(Some(*p)),
                    None => None,
                }
            }
        },
        _ => Some(cur),
    }
}

fn field_error(key: &str, message: &str) -> (r: (String, String))
    ensures
        r.0@ == key@,
        r.1@ == message@,
{
    (key.to_owned(), message.to_owned())
}

/// Checks a create body up to the duplicate-name lookup. `name` is the
/// body's name (`None` when the key is missing, empty text when it is not
/// a string); `status` is the body's status when it is a string.
pub fn check_module_create(
    name: Option<&str>,
    start: &DateInput,
    target: &DateInput,
    status: Option<&str>,
) -> (r: Result<ModuleDraft, (String, String)>)
    ensures
        match module_create_error(
            match name {
                Some(n) => Some(n@),
                None => None,
            },
            *start,
            *target,
            match status {
                Some(x) => Some(x@),
                None => None,
            },
        ) {
            Some((k, m)) => r matches Err(e) && e.0@ == k && e.1@ == m,
            None => r matches Ok(d) && name is Some && d.name@ == name->0@ && Some(d.start_date)
                == create_date(*start) && Some(d.target_date) == create_date(*target) && d.status@
                == (match status {
                Some(x) => x@,
                None => "planned"@,
            }),
        },
{
    let n = match name {
        None => {
            return Err(field_error("name", FIELD_REQUIRED_MSG));
        },
        Some(n) => n,
    };
    if let Some(m) = name_error(n) {
        return Err(field_error("name", m));
    }
    let s = match date_for_create(start) {
        Some(s) => s,
        None => {
            return Err(field_error("error", VALID_DETAIL_MSG));
        },
    };
    let t = match date_for_create(target) {
        Some(t) => t,
        None => {
            return Err(field_error("error", VALID_DETAIL_MSG));
        },
    };
    if guard_date_order(s, t).is_err() {
        return Err(field_error("non_field_errors", START_EXCEEDS_TARGET_MSG));
    }
    let st = match normalize_status(status) {
        Ok(v) => v,
        Err(e) => {
            return Err((String::from_str("status"), e));
        },
    };
    Ok(ModuleDraft { name: n.to_owned(), start_date: s, target_date: t, status: st })
}

/// Checks a patched name (the duplicate-name lookup follows); `name` is
/// the body's name when it is a string.
pub fn check_module_patch_name(name: Option<&str>) -> (r: Result<(), (String, String)>)
    ensures
        match name {
            Some(n) => match module_name_error(n@) {
                Some(m) => r matches Err(e) && e.0@ == "name"@ && e.1@ == m,
                None => r is Ok,
            },
            None => r is Ok,
        },
{
    if let Some(n) = name {
        if let Some(m) = name_error(n) {
            return Err(field_error("name", m));
        }
    }
    Ok(())
}

/// The first error of a patch's dates and status, in the handler's order:
/// start date, target date, date order (only when both keys are given),
/// status.
pub open spec fn module_patch_error(
    cur_start: Option<i32>,
    cur_target: Option<i32>,
    start: DateInput,
    target: DateInput,
    status: Option<Seq<char>>,
) -> Option<(Seq<char>, Seq<char>)> {
    match (patch_date(cur_start, start), patch_date(cur_target, target)) {
        (Some(s), Some(t)) => if !(start is Missing) && !(target is Missing) && s is Some && t is Some
            && s->0 > t->0 {
            Some(("non_field_errors"@, START_EXCEEDS_TARGET_MSG@))
        } else {
            status_error(status)
        },
        _ => Some(("error"@, VALID_DETAIL_MSG@)),
    }
}

/// Checks a patch's dates and status against the module's current dates;
/// on success gives the new `(start, target)` dates.
pub fn check_module_patch_fields(
    cur_start: Option<i32>,
    cur_target: Option<i32>,
    start: &DateInput,
    target: &DateInput,
    status: Option<&str>,
) -> (r: Result<(Option<i32>, Option<i32>), (String, String)>)
    ensures
        match module_patch_error(
            cur_start,
            cur_target,
            *start,
            *target,
            match status {
                Some(x) => Some(x@),
                None => None,
            },
        ) {
            Some((k, m)) => r matches Err(e) && e.0@ == k && e.1@ == m,
            None => r matches Ok(d) && Some(d.0) == patch_date(cur_start, *start) && Some(d.1)
                == patch_date(cur_target, *target),
        },
{
    let s = match date_for_patch(cur_start, start) {
        Some(s) => s,
        None => {
            return Err(field_error("error", VALID_DETAIL_MSG));
        },
    };
    let t = match date_for_patch(cur_target, target) {
        Some(t) => t,
        None => {
            return Err(field_error("error", VALID_DETAIL_MSG));
        },
    };
    let both = !matches!(start, DateInput::Missing) && !matches!(target, DateInput::Missing);
    if both && guard_date_order(s, t).is_err() {
        return Err(field_error("non_field_errors", START_EXCEEDS_TARGET_MSG));
    }
    if let Some(x) = status {
        if let Err(e) = normalize_status(Some(x)) {
            return Err((String::from_str("status"), e));
        }
    }
    Ok((s, t))
}

/// The lead change of a patch, for the value of `lead_id` (or `lead`
/// when `lead_id` is missing): `Ok(None)` clears the lead (missing, null or
/// blank text), `Ok(Some(id))` sets it, `Err` when it is not an id.
pub open spec fn module_lead(v: FieldValue) -> Result<Option<u128>, ()> {
    match v {
        FieldValue::Text(s) => if trim(s@).len() == 0 {
            Ok(None)
        } else {
            match uuid_value(s@) {
                Some(u) => Ok(Some(u)),
                None => Err(()),
            }
        },
        FieldValue::Other => Err(()),
        _ => Ok(None),
    }
}

/// Reads the lead of a module patch; the error is the valid-detail
/// message.
pub fn check_module_lead(v: &FieldValue) -> (r: Result<Option<u128>, String>)
    ensures
        match module_lead(*v) {
            Ok(l) => r == Ok::<Option<u128>, String>(l),
            Err(_) => r matches Err(e) && e@ == VALID_DETAIL_MSG@,
        },
{
    match v {
        FieldValue::Text(s) => {
            let c = chars_of(s.as_str());
            if trim_chars(&c).len() == 0 {
                Ok(None)
            } else {
                match crate::ids::parse_uuid(s.as_str()) {
                    Some(u) => Ok(Some(u)),
                    None => Err(VALID_DETAIL_MSG.to_owned()),
                }
            }
        },
        FieldValue::Other => Err(VALID_DETAIL_MSG.to_owned()),
        _ => Ok(None),
    }
}

// ---------------------------------------------------------------------------
// Body dates
// ---------------------------------------------------------------------------

/// The day number (days of the proleptic Gregorian calendar, 1 January of
/// year 1 being day 1) of the date that `s` spells in the `%Y-%m-%d`
/// format, as chrono reads it; `None` when chrono refuses the text.
pub uninterp spec fn ymd_day(s: Seq<char>) -> Option<i32>;

/// `chrono::NaiveDate::parse_from_str(s, "%Y-%m-%d")`, the date then
/// counted by `Datelike::num_days_from_ce`. The contract claims only that
/// the result is a function of the text: what chrono accepts is not
/// restated here.
#[verifier::external_body]
fn parse_ymd(s: &str) -> (r: Option<i32>)
    ensures
        r == ymd_day(s@),
{
    match chrono::NaiveDate::parse_from_str(s, "%Y-%m-%d") {
        Ok(d) => Some(chrono::Datelike::num_days_from_ce(&d)),
        Err(_) => None,
    }
}

/// Whether `c` separates a date from its time (`T`, `t` or a space).
pub open spec fn is_time_sep(c: char) -> bool {
    c == 'T' || c == 't' || c == ' '
}

/// The index of the first date/time separator of `t` at or after `i`, or
/// the length of `t`.
pub open spec fn time_sep_index(t: Seq<char>, i: int) -> int
    decreases t.len() - i,
{
    if i < 0 || i >= t.len() {
        t.len() as int
    } else if is_time_sep(t[i]) {
        i
    } else {
        time_sep_index(t, i + 1)
    }
}

/// The date part of a trimmed body value: the text before its time.
pub open spec fn date_part(t: Seq<char>) -> Seq<char> {
    t.take(time_sep_index(t, 0))
}

/// The day number of a date body value: the value trimmed, its time
/// (after `T`, `t` or a space) dropped, the rest read as `%Y-%m-%d`.
pub open spec fn body_date(raw: Seq<char>) -> Option<i32> {
    ymd_day(date_part(trim(raw)))
}

/// Reads a date body value leniently: a date alone, or a date with a
/// time, the time discarded. The result is the date's day number, or
/// `None` when the text holds no date.
pub fn parse_body_date(raw: &str) -> (r: Option<i32>)
    ensures
        r == body_date(raw@),
{
    let v = chars_of(raw);
    let t = trim_chars(&v);
    let mut i: usize = 0;
    while i < t.len() && !(t[i] == 'T' || t[i] == 't' || t[i] == ' ')
        invariant
            i <= t@.len(),
            time_sep_index(t@, 0) == time_sep_index(t@, i as int),
        decreases t.len() - i,
    {
        i = i + 1;
    }
    let mut part: Vec<char> = Vec::new();
    push_range(&mut part, &t, 0, i);
    assert(part@ =~= date_part(t@));
    let s = string_of(&part);
    parse_ymd(s.as_str())
}

/// A date field that holds the text `raw`, read as the handler reads it.
pub fn text_date_input(raw: &str) -> (r: DateInput)
    ensures
        r matches DateInput::Text { raw: x, parsed } && x@ == raw@ && parsed == body_date(raw@),
{
    DateInput::Text { raw: raw.to_owned(), parsed: parse_body_date(raw) }
}

// ---------------------------------------------------------------------------
// SQL builders for the module list / detail
// ---------------------------------------------------------------------------

/// Tolerant points sum over `estimate_points.value`.
pub const PT_SUM: &'static str = "COALESCE(SUM(CASE WHEN ep.value ~ '^[+-]?(\\d+(\\.\\d*)?|\\.\\d+)([eE][+-]?\\d+)?$' THEN ep.value::double precision ELSE 0 END), 0)";

/// Fixed text of the issue join used by the points sums.
pub const POINTS_JOIN_HEAD: &'static str = "FROM module_issues mi JOIN issues i ON i.id = mi.issue_id AND mi.deleted_at IS NULL \
         AND i.deleted_at IS NULL \
         JOIN states s ON s.id = i.state_id \
         JOIN estimate_points ep ON ep.id = i.estimate_point_id AND ep.deleted_at IS NULL \
         JOIN estimates e ON e.id = ep.estimate_id AND e.type = 'points' AND e.deleted_at IS NULL \
         WHERE mi.module_id = m.id ";

/// Fixed head of the issue-count subquery.
pub const COUNT_SUB_HEAD: &'static str = "(SELECT COUNT(*) FROM module_issues mi JOIN issues i ON i.id = mi.issue_id \
          AND mi.deleted_at IS NULL AND i.deleted_at IS NULL \
          JOIN states s ON s.id = i.state_id \
          WHERE mi.module_id = m.id ";

/// Issue join for the points sums, narrowed by `group_filter`.
pub fn points_issue_join(group_filter: &str) -> (r: String)
    ensures
        r@ == POINTS_JOIN_HEAD@ + group_filter@,
{
    let mut r = String::from_str(POINTS_JOIN_HEAD);
    r.append(group_filter);
    r
}

/// Spec of `count_sub`.
pub open spec fn spec_count_sub(alias: Seq<char>, group_filter: Seq<char>) -> Seq<char> {
    COUNT_SUB_HEAD@ + group_filter + ") AS "@ + alias
}

/// Issue-count subquery named `alias`, narrowed by `group_filter`.
pub fn count_sub(alias: &str, group_filter: &str) -> (r: String)
    ensures
        r@ == spec_count_sub(alias@, group_filter@),
{
    let mut r = String::from_str(COUNT_SUB_HEAD);
    r.append(group_filter);
    r.append(") AS ");
    r.append(alias);
    r
}

/// Spec of `points_sub`.
pub open spec fn spec_points_sub(alias: Seq<char>, group_filter: Seq<char>) -> Seq<char> {
    "(SELECT "@ + PT_SUM@ + " "@ + POINTS_JOIN_HEAD@ + group_filter + " ) AS "@ + alias
}

/// Points-sum subquery named `alias`, narrowed by `group_filter`.
pub fn points_sub(alias: &str, group_filter: &str) -> (r: String)
    ensures
        r@ == spec_points_sub(alias@, group_filter@),
{
    let join = points_issue_join(group_filter);
    let mut r = String::from_str("(SELECT ");
    r.append(PT_SUM);
    r.append(" ");
    r.append(join.as_str());
    r.append(" ) AS ");
    r.append(alias);
    r
}

/// Head of the module select, up to the completed-points column.
pub const SELECT_HEAD: &'static str = "SELECT m.id, m.workspace_id, m.project_id, m.name, m.description, \
         m.description_text, m.description_html, m.start_date, m.target_date, m.status, \
         m.lead_id, \
         COALESCE(ARRAY(SELECT DISTINCT mm.member_id FROM module_members mm \
            WHERE mm.module_id = m.id AND mm.deleted_at IS NULL), '{}') AS member_ids, \
         m.view_props, m.sort_order, m.external_source, m.external_id, m.logo_props, \
         ";

/// Text between the favorite column and the state-group counts.
pub const SELECT_FAVORITE: &'static str = " AS total_issues, \
         EXISTS(SELECT 1 FROM user_favorites uf WHERE uf.entity_type = 'module' \
            AND uf.entity_identifier = m.id AND uf.user_id = $3 AND uf.project_id = m.project_id \
            AND uf.deleted_at IS NULL) AS is_favorite, \
         ";

/// Tail of the module select, before the archive filter.
pub const SELECT_TAIL: &'static str = " AS backlog_issues, \
         m.created_at, m.updated_at, m.archived_at \
         FROM modules m JOIN workspaces w ON w.id = m.workspace_id \
         WHERE m.project_id = $1 AND w.slug = $2 AND m.deleted_at IS NULL ";

/// Group filter text for a state group.
pub open spec fn group_filter(g: Seq<char>) -> Seq<char> {
    "AND s.\"group\" = '"@ + g + "'"@
}

/// Spec of `module_select`.
pub open spec fn spec_module_select(archived_only: bool) -> Seq<char> {
    let arch = if archived_only {
        "AND m.archived_at IS NOT NULL"@
    } else {
        "AND m.archived_at IS NULL"@
    };
    SELECT_HEAD@ + spec_points_sub("x"@, group_filter("completed"@))
        + " AS completed_estimate_points, "@ + spec_points_sub("x"@, ""@)
        + " AS total_estimate_points, "@ + spec_count_sub("x"@, ""@)
        + SELECT_FAVORITE@ + spec_count_sub("x"@, group_filter("cancelled"@))
        + " AS cancelled_issues, "@ + spec_count_sub("x"@, group_filter("completed"@))
        + " AS completed_issues, "@ + spec_count_sub("x"@, group_filter("started"@))
        + " AS started_issues, "@ + spec_count_sub("x"@, group_filter("unstarted"@))
        + " AS unstarted_issues, "@ + spec_count_sub("x"@, group_filter("backlog"@))
        + SELECT_TAIL@ + arch
}

/// The module list/detail select: every list column with the per-group
/// issue counts and point sums, live modules of one project, archived or
/// not.
pub fn module_select(archived_only: bool) -> (r: String)
    ensures
        r@ == spec_module_select(archived_only),
{
    let completed_pt = points_sub("x", "AND s.\"group\" = 'completed'");
    let total_pt = points_sub("x", "");
    let total = count_sub("x", "");
    let cancelled = count_sub("x", "AND s.\"group\" = 'cancelled'");
    let completed = count_sub("x", "AND s.\"group\" = 'completed'");
    let started = count_sub("x", "AND s.\"group\" = 'started'");
    let unstarted = count_sub("x", "AND s.\"group\" = 'unstarted'");
    let backlog = count_sub("x", "AND s.\"group\" = 'backlog'");
    proof {
        reveal_strlit("AND s.\"group\" = 'completed'");
        reveal_strlit("AND s.\"group\" = 'cancelled'");
        reveal_strlit("AND s.\"group\" = 'started'");
        reveal_strlit("AND s.\"group\" = 'unstarted'");
        reveal_strlit("AND s.\"group\" = 'backlog'");
        reveal_strlit("AND s.\"group\" = '");
        reveal_strlit("'");
        reveal_strlit("completed");
        reveal_strlit("cancelled");
        reveal_strlit("started");
        reveal_strlit("unstarted");
        reveal_strlit("backlog");
        assert(group_filter("completed"@) =~= "AND s.\"group\" = 'completed'"@);
        assert(group_filter("cancelled"@) =~= "AND s.\"group\" = 'cancelled'"@);
        assert(group_filter("started"@) =~= "AND s.\"group\" = 'started'"@);
        assert(group_filter("unstarted"@) =~= "AND s.\"group\" = 'unstarted'"@);
        assert(group_filter("backlog"@) =~= "AND s.\"group\" = 'backlog'"@);
    }
    let mut r = String::from_str(SELECT_HEAD);
    r.append(completed_pt.as_str());
    r.append(" AS completed_estimate_points, ");
    r.append(total_pt.as_str());
    r.append(" AS total_estimate_points, ");
    r.append(total.as_str());
    r.append(SELECT_FAVORITE);
    r.append(cancelled.as_str());
    r.append(" AS cancelled_issues, ");
    r.append(completed.as_str());
    r.append(" AS completed_issues, ");
    r.append(started.as_str());
    r.append(" AS started_issues, ");
    r.append(unstarted.as_str());
    r.append(" AS unstarted_issues, ");
    r.append(backlog.as_str());
    r.append(SELECT_TAIL);
    if archived_only {
        r.append("AND m.archived_at IS NOT NULL");
    } else {
        r.append("AND m.archived_at IS NULL");
    }
    r
}


// ---------------------------------------------------------------------------
// Laws
// ---------------------------------------------------------------------------

/// Every requested field name is non-empty and carries no surrounding
/// whitespace.
pub proof fn law_requested_fields_trimmed(raw: Seq<char>)
    ensures
        forall|i: int|
            0 <= i < trimmed_nonempty(split_char(raw, ',')).len() ==> (
            #[trigger] trimmed_nonempty(split_char(raw, ','))[i]).len() > 0 && trim(
                trimmed_nonempty(split_char(raw, ','))[i],
            ) == trimmed_nonempty(split_char(raw, ','))[i],
{
    crate::text::lemma_trimmed_nonempty_shape(split_char(raw, ','));
}


/// The completed-points column of the module select sums only issues whose
/// state group is `completed`, and the total-points column sums them all:
/// the select starts with the two point-sum subqueries, identical but for
/// the completed group filter.
pub proof fn law_completed_points_filtered(archived_only: bool)
    ensures
        exists|rest: Seq<char>|
            #[trigger] spec_module_select(archived_only) == SELECT_HEAD@ + "(SELECT "@ + PT_SUM@ + " "@
                + POINTS_JOIN_HEAD@ + "AND s.\"group\" = 'completed'"@
                + " ) AS x AS completed_estimate_points, (SELECT "@ + PT_SUM@ + " "@
                + POINTS_JOIN_HEAD@ + " ) AS x AS total_estimate_points, "@ + rest,
{
    reveal_strlit("AND s.\"group\" = 'completed'");
    reveal_strlit("AND s.\"group\" = '");
    reveal_strlit("'");
    reveal_strlit("completed");
    reveal_strlit("x");
    reveal_strlit("");
    reveal_strlit("(SELECT ");
    reveal_strlit(" ");
    reveal_strlit(" ) AS ");
    reveal_strlit(" AS completed_estimate_points, ");
    reveal_strlit(" AS total_estimate_points, ");
    reveal_strlit(" ) AS x AS completed_estimate_points, (SELECT ");
    reveal_strlit(" ) AS x AS total_estimate_points, ");
    assert(group_filter("completed"@) =~= "AND s.\"group\" = 'completed'"@);
    let arch = if archived_only {
        "AND m.archived_at IS NOT NULL"@
    } else {
        "AND m.archived_at IS NULL"@
    };
    let rest = spec_count_sub("x"@, ""@) + SELECT_FAVORITE@ + spec_count_sub(
        "x"@,
        group_filter("cancelled"@),
    ) + " AS cancelled_issues, "@ + spec_count_sub("x"@, group_filter("completed"@))
        + " AS completed_issues, "@ + spec_count_sub("x"@, group_filter("started"@))
        + " AS started_issues, "@ + spec_count_sub("x"@, group_filter("unstarted"@))
        + " AS unstarted_issues, "@ + spec_count_sub("x"@, group_filter("backlog"@))
        + SELECT_TAIL@ + arch;
    assert(spec_module_select(archived_only) =~= SELECT_HEAD@ + "(SELECT "@ + PT_SUM@ + " "@
        + POINTS_JOIN_HEAD@ + "AND s.\"group\" = 'completed'"@
        + " ) AS x AS completed_estimate_points, (SELECT "@ + PT_SUM@ + " "@ + POINTS_JOIN_HEAD@
        + " ) AS x AS total_estimate_points, "@ + rest);
}


/// A link URL is judged the same whether its scheme is `http://` or
/// `https://`; and an `https://` URL whose host (the text before the first
/// `/`, `?`, `#` or `:`) is non-empty, has no whitespace and has a dot is
/// valid.
pub proof fn law_https_links_like_http(r: Seq<char>)
    ensures
        spec_valid_link_url("https://"@ + r) == spec_valid_link_url("http://"@ + r),
        ({
            let h = r.subrange(0, host_end_from(r, 0));
            h.len() > 0 && !has_ws(h) && has_char(h, '.') ==> spec_valid_link_url("https://"@ + r)
        }),
{
    reveal_strlit("https://");
    reveal_strlit("http://");
    let a = "https://"@ + r;
    let b = "http://"@ + r;
    assert(starts_with(b, "http://"@));
    assert(b.subrange(7, b.len() as int) =~= r);
    assert(a[4] == 's');
    assert(!starts_with(a, "http://"@)) by {
        if starts_with(a, "http://"@) {
            assert(a[0int + 4] == "http://"@[4]);
        }
    }
    assert(starts_with(a, "https://"@));
    assert(a.subrange(8, a.len() as int) =~= r);
}

} // verus!

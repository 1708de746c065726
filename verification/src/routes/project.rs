//! Project rules: the shared permission/not-found messages, the sole-admin
//! leave guard, create validation (name/identifier), uniqueness and archive
//! guards, patch checks, and the default state seed with its slugs.
use vstd::prelude::*;

use crate::text::{
    chars_of, string_of, to_lowercase, to_uppercase, trim, trim_chars, unicode_lowercase,
    unicode_uppercase,
};

verus! {

broadcast use vstd::string::group_string_axioms;

/// Body of every `@allow_permission` denial.
pub const FORBIDDEN_MSG: &'static str = "You don't have the required permissions.";

/// Body of the generic 404.
pub const NOT_FOUND_MSG: &'static str = "The required object does not exist.";

/// Message refusing to let the last project admin leave (grammar as served).
pub const LEAVE_SOLE_ADMIN_MSG: &'static str = "You cannot leave the project as your the only admin of the project you will have to either delete the project or create an another admin";

/// Message for a patch on an archived project.
pub const ARCHIVED_PROJECT_MSG: &'static str = "Archived projects cannot be updated";

/// Error code for a duplicate project name.
pub const NAME_TAKEN_CODE: &'static str = "PROJECT_NAME_ALREADY_EXIST";

/// Error code for a duplicate project identifier.
pub const IDENTIFIER_TAKEN_CODE: &'static str = "PROJECT_IDENTIFIER_ALREADY_EXIST";

/// A project admin may leave only while another active admin remains.
pub fn guard_leave(is_admin: bool, admin_count: i64) -> (r: Result<(), String>)
    ensures
        r is Err <==> (is_admin && admin_count <= 1),
        r matches Err(e) ==> e@ == LEAVE_SOLE_ADMIN_MSG@,
{
    if is_admin && admin_count <= 1 {
        return Err(LEAVE_SOLE_ADMIN_MSG.to_owned());
    }
    Ok(())
}

/// Archived projects are immutable.
pub fn guard_patch(archived: bool) -> (r: Result<(), String>)
    ensures
        r is Err <==> archived,
        r matches Err(e) ==> e@ == ARCHIVED_PROJECT_MSG@,
{
    if archived {
        return Err(ARCHIVED_PROJECT_MSG.to_owned());
    }
    Ok(())
}

/// A sibling project already carries this name.
pub fn guard_name_unique(exists: bool) -> (r: Result<(), String>)
    ensures
        r is Err <==> exists,
        r matches Err(e) ==> e@ == NAME_TAKEN_CODE@,
{
    if exists {
        return Err(NAME_TAKEN_CODE.to_owned());
    }
    Ok(())
}

/// A sibling project already carries this identifier.
pub fn guard_identifier_unique(exists: bool) -> (r: Result<(), String>)
    ensures
        r is Err <==> exists,
        r matches Err(e) ==> e@ == IDENTIFIER_TAKEN_CODE@,
{
    if exists {
        return Err(IDENTIFIER_TAKEN_CODE.to_owned());
    }
    Ok(())
}

/// Characters a project name or identifier may not contain.
pub open spec fn is_forbidden_char(c: char) -> bool {
    ||| c == '&'
    ||| c == '+'
    ||| c == ','
    ||| c == ':'
    ||| c == ';'
    ||| c == '$'
    ||| c == '^'
    ||| c == '}'
    ||| c == '{'
    ||| c == '*'
    ||| c == '='
    ||| c == '?'
    ||| c == '@'
    ||| c == '#'
    ||| c == '|'
    ||| c == '\''
    ||| c == '<'
    ||| c == '>'
    ||| c == '.'
    ||| c == '('
    ||| c == ')'
    ||| c == '%'
    ||| c == '!'
    ||| c == '-'
    ||| c == '/'
}

/// Some character of `s` is forbidden.
pub open spec fn spec_has_forbidden(s: Seq<char>) -> bool {
    exists|i: int| 0 <= i < s.len() && is_forbidden_char(#[trigger] s[i])
}

/// The forbidden characters, in the order the rule lists them.
pub const FORBIDDEN: [char; 25] = [
    '&',
    '+',
    ',',
    ':',
    ';',
    '$',
    '^',
    '}',
    '{',
    '*',
    '=',
    '?',
    '@',
    '#',
    '|',
    '\'',
    '<',
    '>',
    '.',
    '(',
    ')',
    '%',
    '!',
    '-',
    '/',
];

fn is_forbidden(c: char) -> (r: bool)
    ensures
        r == is_forbidden_char(c),
{
    c == '&' || c == '+' || c == ',' || c == ':' || c == ';' || c == '$' || c == '^' || c == '}'
        || c == '{' || c == '*' || c == '=' || c == '?' || c == '@' || c == '#' || c == '|' || c
        == '\'' || c == '<' || c == '>' || c == '.' || c == '(' || c == ')' || c == '%' || c == '!'
        || c == '-' || c == '/'
}

/// Whether `s` contains a forbidden character.
pub fn has_forbidden(s: &str) -> (r: bool)
    ensures
        r == spec_has_forbidden(s@),
{
    let v = chars_of(s);
    let mut i: usize = 0;
    while i < v.len()
        invariant
            i <= v@.len(),
            v@ == s@,
            forall|j: int| 0 <= j < i ==> !is_forbidden_char(#[trigger] v@[j]),
        decreases v.len() - i,
    {
        if is_forbidden(v[i]) {
            return true;
        }
        i = i + 1;
    }
    false
}

/// Create body: `project_lead` is the lead user's id as a 128-bit integer.
#[derive(Debug, Clone)]
pub struct CreateProject {
    pub name: String,
    pub identifier: String,
    pub project_lead: Option<u128>,
}

/// Project as listed: id as a 128-bit integer.
#[derive(Debug, Clone)]
pub struct ProjectOut {
    pub id: u128,
    pub name: String,
    pub identifier: String,
}

/// Patch body: each field is changed only when present.
#[derive(Debug, Clone, Default)]
pub struct PatchProject {
    pub name: Option<String>,
    pub identifier: Option<String>,
    pub description: Option<String>,
}

/// Patch rejection of a bad name.
pub const INVALID_NAME_MSG: &'static str = "Invalid name";

/// Patch rejection of a bad identifier.
pub const INVALID_IDENTIFIER_MSG: &'static str = "Invalid identifier";

/// The stored form of an identifier: trimmed, then upper-cased.
pub open spec fn spec_normalize_identifier(identifier: Seq<char>) -> Seq<char> {
    unicode_uppercase(trim(identifier))
}

/// The stored form of an identifier (create and patch both store it so).
pub fn normalize_identifier(identifier: &str) -> (r: String)
    ensures
        r@ == spec_normalize_identifier(identifier@),
{
    let v = chars_of(identifier);
    let t = string_of(&trim_chars(&v));
    to_uppercase(t.as_str())
}

/// A patched name is acceptable: not blank, at most 255 characters, no
/// forbidden character.
pub open spec fn spec_patch_name_ok(name: Seq<char>) -> bool {
    trim(name).len() > 0 && name.len() <= 255 && !spec_has_forbidden(name)
}

/// Checks a patched name (uniqueness is checked afterwards, by lookup).
pub fn patch_name(name: &str) -> (r: Result<(), String>)
    ensures
        r is Ok <==> spec_patch_name_ok(name@),
        r matches Err(e) ==> e@ == INVALID_NAME_MSG@,
{
    let v = chars_of(name);
    if trim_chars(&v).len() == 0 || v.len() > 255 || has_forbidden(name) {
        return Err(INVALID_NAME_MSG.to_owned());
    }
    Ok(())
}

/// A normalised identifier is acceptable: not empty, at most 12
/// characters, no forbidden character.
pub open spec fn spec_patch_identifier_ok(ident: Seq<char>) -> bool {
    ident.len() > 0 && ident.len() <= 12 && !spec_has_forbidden(ident)
}

/// Checks an identifier already in its stored form (trimmed and
/// upper-cased): not empty, at most 12 characters, no forbidden character.
pub fn check_stored_identifier(ident: &str) -> (r: Result<(), String>)
    ensures
        r is Ok <==> spec_patch_identifier_ok(ident@),
        r matches Err(e) ==> e@ == INVALID_IDENTIFIER_MSG@,
{
    let n = ident.unicode_len();
    if n == 0 || n > 12 || has_forbidden(ident) {
        return Err(INVALID_IDENTIFIER_MSG.to_owned());
    }
    Ok(())
}

/// Checks a patched identifier; on success gives its stored form.
pub fn patch_identifier(identifier: &str) -> (r: Result<String, String>)
    ensures
        match r {
            Ok(s) => s@ == spec_normalize_identifier(identifier@) && spec_patch_identifier_ok(s@),
            Err(e) => e@ == INVALID_IDENTIFIER_MSG@ && !spec_patch_identifier_ok(
                spec_normalize_identifier(identifier@),
            ),
        },
{
    let ident = normalize_identifier(identifier);
    check_stored_identifier(ident.as_str())?;
    Ok(ident)
}

/// Each space turned into `-`.
pub open spec fn dashed(s: Seq<char>) -> Seq<char> {
    s.map_values(|c: char| if c == ' ' { '-' } else { c })
}

/// Slug of a state name: lowercased, each space turned into `-`.
pub open spec fn spec_state_slug(name: Seq<char>) -> Seq<char> {
    dashed(unicode_lowercase(name))
}

/// Slug of an already lowercased name: each space turned into `-`.
pub fn slug_of_lowercased(lower: &str) -> (r: String)
    ensures
        r@ == dashed(lower@),
{
    let v = chars_of(lower);
    let mut out: Vec<char> = Vec::new();
    let mut i: usize = 0;
    while i < v.len()
        invariant
            i <= v@.len(),
            v@ == lower@,
            out@ == dashed(v@.take(i as int)),
        decreases v.len() - i,
    {
        let c = v[i];
        if c == ' ' {
            out.push('-');
        } else {
            out.push(c);
        }
        assert(v@.take(i + 1) =~= v@.take(i as int).push(c));
        assert(dashed(v@.take(i + 1)) =~= dashed(v@.take(i as int)).push(if c == ' ' { '-' } else { c }));
        i = i + 1;
    }
    assert(v@.take(v@.len() as int) =~= v@);
    string_of(&out)
}

/// Slug of a seeded state's name.
pub fn state_slug(name: &str) -> (r: String)
    ensures
        r@ == spec_state_slug(name@),
{
    let lower = to_lowercase(name);
    slug_of_lowercased(lower.as_str())
}

/// Error codes and messages of create validation, checked in this order.
pub open spec fn create_project_error(name: Seq<char>, identifier: Seq<char>) -> Option<Seq<char>> {
    if trim(name).len() == 0 {
        Some("name is required"@)
    } else if trim(identifier).len() == 0 {
        Some("identifier is required"@)
    } else if name.len() > 255 {
        Some("name max length 255"@)
    } else if identifier.len() > 12 {
        Some("identifier max length 12"@)
    } else if spec_has_forbidden(name) {
        Some("PROJECT_NAME_CANNOT_CONTAIN_SPECIAL_CHARACTERS"@)
    } else if spec_has_forbidden(identifier) {
        Some("PROJECT_IDENTIFIER_CANNOT_CONTAIN_SPECIAL_CHARACTERS"@)
    } else {
        None
    }
}

/// Validates a create body.
pub fn validate_create(body: &CreateProject) -> (r: Result<(), String>)
    ensures
        match create_project_error(body.name@, body.identifier@) {
            Some(m) => r matches Err(e) && e@ == m,
            None => r is Ok,
        },
{
    let name = chars_of(body.name.as_str());
    let ident = chars_of(body.identifier.as_str());
    if trim_chars(&name).len() == 0 {
        return Err("name is required".to_owned());
    }
    if trim_chars(&ident).len() == 0 {
        return Err("identifier is required".to_owned());
    }
    if name.len() > 255 {
        return Err("name max length 255".to_owned());
    }
    if ident.len() > 12 {
        return Err("identifier max length 12".to_owned());
    }
    if has_forbidden(body.name.as_str()) {
        return Err("PROJECT_NAME_CANNOT_CONTAIN_SPECIAL_CHARACTERS".to_owned());
    }
    if has_forbidden(body.identifier.as_str()) {
        return Err("PROJECT_IDENTIFIER_CANNOT_CONTAIN_SPECIAL_CHARACTERS".to_owned());
    }
    Ok(())
}

/// One default state seeded into a new project; `sequence` is the state's
/// position (an integral value).
pub struct SeedState {
    pub name: &'static str,
    pub color: &'static str,
    pub sequence: u32,
    pub group: &'static str,
    pub default: bool,
}

/// Seed row `(name, color, sequence, group, default)` of index `i`.
pub open spec fn seed_spec(i: int) -> (Seq<char>, Seq<char>, u32, Seq<char>, bool) {
    if i == 0 {
        ("Backlog"@, "#60646C"@, 15000, "backlog"@, true)
    } else if i == 1 {
        ("Todo"@, "#60646C"@, 25000, "unstarted"@, false)
    } else if i == 2 {
        ("In Progress"@, "#F59E0B"@, 35000, "started"@, false)
    } else if i == 3 {
        ("Done"@, "#46A758"@, 45000, "completed"@, false)
    } else if i == 4 {
        ("Cancelled"@, "#9AA4BC"@, 55000, "cancelled"@, false)
    } else {
        ("Triage"@, "#4E5355"@, 65000, "triage"@, false)
    }
}

fn seed(name: &'static str, color: &'static str, sequence: u32, group: &'static str, default: bool) -> (r: SeedState)
    ensures
        r.name@ == name@,
        r.color@ == color@,
        r.sequence == sequence,
        r.group@ == group@,
        r.default == default,
{
    SeedState { name, color, sequence, group, default }
}

/// The six default states, in seeding order; only `Backlog` is default.
pub fn default_states_seed() -> (r: Vec<SeedState>)
    ensures
        r@.len() == 6,
        forall|i: int|
            0 <= i < 6 ==> {
                let (n, c, q, g, d) = seed_spec(i);
                &&& (#[trigger] r@[i]).name@ == n
                &&& r@[i].color@ == c
                &&& r@[i].sequence == q
                &&& r@[i].group@ == g
                &&& r@[i].default == d
            },
{
    let mut r: Vec<SeedState> = Vec::new();
    r.push(seed("Backlog", "#60646C", 15000, "backlog", true));
    r.push(seed("Todo", "#60646C", 25000, "unstarted", false));
    r.push(seed("In Progress", "#F59E0B", 35000, "started", false));
    r.push(seed("Done", "#46A758", 45000, "completed", false));
    r.push(seed("Cancelled", "#9AA4BC", 55000, "cancelled", false));
    r.push(seed("Triage", "#4E5355", 65000, "triage", false));
    r
}


// ---------------------------------------------------------------------------
// Laws
// ---------------------------------------------------------------------------

/// A state slug never holds a space.
pub proof fn law_state_slug_has_no_space(name: Seq<char>)
    ensures
        forall|i: int| 0 <= i < spec_state_slug(name).len() ==> #[trigger] spec_state_slug(name)[i] != ' ',
{
}

/// An accepted identifier is stored with 1 to 12 characters and no
/// forbidden character.
pub proof fn law_accepted_identifier_is_safe(identifier: Seq<char>)
    requires
        spec_patch_identifier_ok(spec_normalize_identifier(identifier)),
    ensures
        1 <= spec_normalize_identifier(identifier).len() <= 12,
        !spec_has_forbidden(spec_normalize_identifier(identifier)),
{
}

} // verus!

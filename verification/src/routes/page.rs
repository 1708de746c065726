//! Page rules: the page permission matrix, order-by sanitising, access,
//! archive and delete guards, binary description validation (base64 on the
//! wire), HTML description cleaning, create validation and the create
//! and patch body field checks.
use vstd::prelude::*;

use base64::Engine;
use vstd::string::StringSliceAdditionalSpecFns;

use crate::body::{int_text, FieldValue, IntValue};
use crate::ids::uuid_value;
use crate::routes::module::{invalid_choice, invalid_choice_msg};
use crate::routes::project::FORBIDDEN_MSG;
use crate::text::{
    chars_of, find_char_exec, find_char_from, find_ci_from, find_ci_from_exec, find_from,
    find_from_exec, is_ascii_ws, is_ascii_ws_char, lemma_find_char_from_spec,
    lemma_find_ci_from_spec, lemma_find_from_spec, lower_code, lower_code_of, matches_at,
    matches_ci_at, matches_ci_at_exec, push_all, push_range, str_eq, string_of, trim, trim_chars,
    trim_end,
};

verus! {

broadcast use vstd::string::group_string_axioms;

/// Malformed body.
pub const VALID_DETAIL_MSG: &'static str = "Please provide valid detail";

/// Integrity violation (duplicate favorite).
pub const PAYLOAD_INVALID_MSG: &'static str = "The payload is not valid";

/// Page-permission denial.
pub const PERMISSION_DETAIL_MSG: &'static str = "You do not have permission to perform this action.";

/// Detail miss (no trailing period).
pub const PAGE_NOT_FOUND_MSG: &'static str = "Page not found";

/// Restricted guest reading a page.
pub const GUEST_VIEW_DENY_MSG: &'static str = "You are not allowed to view this page";

/// Patch of a locked page.
pub const PAGE_LOCKED_MSG: &'static str = "Page is locked";

/// Access change by someone other than the owner.
pub const ACCESS_QUIRK_MSG: &'static str = "Access cannot be updated since this page is owned by someone else";

/// Archive by neither owner nor admin.
pub const ARCHIVE_ONLY_MSG: &'static str = "Only the owner or admin can archive the page";

/// Unarchive by neither owner nor admin (wording as served).
pub const UNARCHIVE_ONLY_MSG: &'static str = "Only the owner or admin can un archive the page";

/// Delete before archive.
pub const DELETE_ARCHIVE_FIRST_MSG: &'static str = "The page should be archived before deleting";

/// Delete by neither owner nor admin.
pub const DELETE_ADMIN_OWNER_MSG: &'static str = "Only admin or owner can delete the page";

/// Duplicate of a page the caller may not copy.
pub const DUPLICATE_DENY_MSG: &'static str = "Permission denied";

/// Error code of a locked page.
pub const PAGE_LOCKED_CODE: i32 = 4701;

/// Error code of an archived page.
pub const PAGE_ARCHIVED_CODE: i32 = 4702;

/// Undecodable base64 description.
pub const DESC_DECODE_MSG: &'static str = "Failed to decode base64 data";

/// Description updated.
pub const DESC_UPDATED_MSG: &'static str = "Updated successfully";

/// Default HTML body of a new page.
pub const DEFAULT_DESC_HTML: &'static str = "<p></p>";

/// Default view properties of a new page.
pub const DEFAULT_VIEW_PROPS: &'static str = "{\"full_width\": false}";

// ---------------------------------------------------------------------------
// Permission matrix
// ---------------------------------------------------------------------------

/// Outcome of the page permission matrix.
#[derive(Debug, Clone, Copy, PartialEq, Eq, Structural)]
pub enum PagePerm {
    Allow,
    Deny,
}

/// Roles a public page allows for `method`.
pub open spec fn method_allows(method: Seq<char>, role: i16) -> bool {
    if method == "POST"@ {
        role == 20 || role == 15
    } else if method == "GET"@ || method == "HEAD"@ || method == "OPTIONS"@ {
        role == 20 || role == 15 || role == 5
    } else if method == "PUT"@ || method == "PATCH"@ {
        role == 20 || role == 15
    } else if method == "DELETE"@ {
        role == 20
    } else {
        false
    }
}

/// Spec of the page permission matrix.
pub open spec fn spec_page_perm(is_owner: bool, is_private: bool, method: Seq<char>, role: Option<i16>) -> PagePerm {
    match role {
        None => PagePerm::Deny,
        Some(r) => if is_owner {
            PagePerm::Allow
        } else if is_private {
            PagePerm::Deny
        } else if method_allows(method, r) {
            PagePerm::Allow
        } else {
            PagePerm::Deny
        },
    }
}

/// Page permission: active membership is required; the owner may do
/// anything; a private page denies everyone else; a public page checks the
/// method against the role.
pub fn page_perm_decision(is_owner: bool, is_private: bool, method: &str, role: Option<i16>) -> (r: PagePerm)
    ensures
        r == spec_page_perm(is_owner, is_private, method@, role),
{
    let role = match role {
        None => {
            return PagePerm::Deny;
        },
        Some(r) => r,
    };
    if is_owner {
        return PagePerm::Allow;
    }
    if is_private {
        return PagePerm::Deny;
    }
    let ok = if str_eq(method, "POST") {
        role == 20 || role == 15
    } else if str_eq(method, "GET") || str_eq(method, "HEAD") || str_eq(method, "OPTIONS") {
        role == 20 || role == 15 || role == 5
    } else if str_eq(method, "PUT") || str_eq(method, "PATCH") {
        role == 20 || role == 15
    } else if str_eq(method, "DELETE") {
        role == 20
    } else {
        false
    };
    if ok {
        PagePerm::Allow
    } else {
        PagePerm::Deny
    }
}

// ---------------------------------------------------------------------------
// Order by
// ---------------------------------------------------------------------------

/// SQL column of an allow-listed page order key.
pub open spec fn page_order_column(bare: Seq<char>) -> Option<Seq<char>> {
    if bare == "created_at"@ {
        Some("p.created_at"@)
    } else if bare == "updated_at"@ {
        Some("p.updated_at"@)
    } else if bare == "name"@ {
        Some("p.name"@)
    } else if bare == "sort_order"@ {
        Some("p.sort_order"@)
    } else {
        None
    }
}

/// Spec of `sanitize_page_order_by`: `(column, descending)`.
pub open spec fn spec_page_order(raw: Seq<char>) -> (Seq<char>, bool) {
    let desc = raw.len() > 0 && raw[0] == '-';
    let bare = if desc {
        raw.drop_first()
    } else {
        raw
    };
    if raw.len() == 0 || (bare.len() > 0 && bare[0] == '-') {
        ("p.created_at"@, true)
    } else {
        match page_order_column(bare) {
            Some(c) => (c, desc),
            None => ("p.created_at"@, true),
        }
    }
}

fn order_column(bare: &[char]) -> (r: Option<&'static str>)
    ensures
        match page_order_column(bare@) {
            Some(c) => r matches Some(x) && x@ == c,
            None => r is None,
        },
{
    let created = chars_of("created_at");
    let updated = chars_of("updated_at");
    let name = chars_of("name");
    let sort = chars_of("sort_order");
    if crate::text::chars_eq(bare, &created) {
        Some("p.created_at")
    } else if crate::text::chars_eq(bare, &updated) {
        Some("p.updated_at")
    } else if crate::text::chars_eq(bare, &name) {
        Some("p.name")
    } else if crate::text::chars_eq(bare, &sort) {
        Some("p.sort_order")
    } else {
        None
    }
}

/// Maps `?order_by=` onto the page allowlist: `(column, descending)`,
/// default `-created_at`.
pub fn sanitize_page_order_by(raw: &str) -> (r: (&'static str, bool))
    ensures
        r.0@ == spec_page_order(raw@).0,
        r.1 == spec_page_order(raw@).1,
{
    let v = chars_of(raw);
    if v.len() == 0 {
        return ("p.created_at", true);
    }
    let desc = v[0] == '-';
    let mut bare: Vec<char> = Vec::new();
    if desc {
        crate::text::push_range(&mut bare, &v, 1, v.len());
        assert(bare@ =~= v@.drop_first());
    } else {
        crate::text::push_all(&mut bare, &v);
        assert(bare@ =~= v@);
    }
    if bare.len() > 0 && bare[0] == '-' {
        return ("p.created_at", true);
    }
    match order_column(&bare) {
        Some(c) => (c, desc),
        None => ("p.created_at", true),
    }
}

// ---------------------------------------------------------------------------
// Guards
// ---------------------------------------------------------------------------

/// Only the owner may change a page's access.
pub fn guard_access_change(page_access: i16, body_access: Option<i16>, is_owner: bool) -> (r: Result<(), String>)
    ensures
        r is Err <==> (body_access is Some && body_access->0 != page_access && !is_owner),
        r matches Err(e) ==> e@ == ACCESS_QUIRK_MSG@,
{
    if let Some(next) = body_access {
        if next != page_access && !is_owner {
            return Err(ACCESS_QUIRK_MSG.to_owned());
        }
    }
    Ok(())
}

/// A member with role at most 15 who is not the owner may not
/// (un)archive.
pub fn guard_archive_owner(is_owner: bool, low_role_member: bool, unarchive: bool) -> (r: Result<(), String>)
    ensures
        r is Err <==> (!is_owner && low_role_member),
        r matches Err(e) ==> e@ == (if unarchive {
            UNARCHIVE_ONLY_MSG@
        } else {
            ARCHIVE_ONLY_MSG@
        }),
{
    if !is_owner && low_role_member {
        return Err(
            if unarchive {
                UNARCHIVE_ONLY_MSG.to_owned()
            } else {
                ARCHIVE_ONLY_MSG.to_owned()
            },
        );
    }
    Ok(())
}

/// A page must be archived before it is deleted.
pub fn guard_delete_archived(archived: bool) -> (r: Result<(), String>)
    ensures
        r is Err <==> !archived,
        r matches Err(e) ==> e@ == DELETE_ARCHIVE_FIRST_MSG@,
{
    if !archived {
        return Err(DELETE_ARCHIVE_FIRST_MSG.to_owned());
    }
    Ok(())
}

/// Only the owner or an admin may delete a page.
pub fn guard_delete_owner(is_owner: bool, is_admin: bool) -> (r: Result<(), String>)
    ensures
        r is Err <==> (!is_owner && !is_admin),
        r matches Err(e) ==> e@ == DELETE_ADMIN_OWNER_MSG@,
{
    if !is_owner && !is_admin {
        return Err(DELETE_ADMIN_OWNER_MSG.to_owned());
    }
    Ok(())
}

/// Project role admin (20) or member (15).
pub fn guard_am(role: Option<i16>) -> (r: Result<(), String>)
    ensures
        r is Ok <==> (role == Some(20i16) || role == Some(15i16)),
        r matches Err(e) ==> e@ == FORBIDDEN_MSG@,
{
    match role {
        Some(20) | Some(15) => Ok(()),
        _ => Err(FORBIDDEN_MSG.to_owned()),
    }
}

// ---------------------------------------------------------------------------
// Create validation
// ---------------------------------------------------------------------------
/// Query of the page list.
#[derive(Debug, Clone, Default)]
pub struct PageListQuery {
    pub search: Option<String>,
    pub order_by: Option<String>,
}

/// Create body.
#[derive(Debug, Clone)]
pub struct CreatePage {
    pub name: Option<String>,
    pub access: Option<i16>,
    pub color: Option<String>,
}

/// Validates a create body: access is 0 (public) or 1 (private), color at
/// most 255 characters.
pub fn validate_create(body: &CreatePage) -> (r: Result<(), String>)
    ensures
        (body.access is Some && body.access->0 != 0 && body.access->0 != 1) ==> (r matches Err(
            e,
        ) && e@ == "access must be 0 (Public) or 1 (Private)"@),
        !(body.access is Some && body.access->0 != 0 && body.access->0 != 1) ==> (if body.color is Some
            && body.color->0@.len() > 255 {
            r matches Err(e) && e@ == "color max length 255"@
        } else {
            r is Ok
        }),
{
    if let Some(access) = body.access {
        if access != 0 && access != 1 {
            return Err("access must be 0 (Public) or 1 (Private)".to_owned());
        }
    }
    if let Some(color) = &body.color {
        let c = chars_of(color.as_str());
        if c.len() > 255 {
            return Err("color max length 255".to_owned());
        }
    }
    Ok(())
}

// ---------------------------------------------------------------------------
// Create body fields
// ---------------------------------------------------------------------------

/// A text field holding something else.
pub const NOT_A_STRING_MSG: &'static str = "Not a valid string.";

/// An integer field holding something else.
pub const INTEGER_REQUIRED_MSG: &'static str = "A valid integer is required.";

/// A color over 255 characters.
pub const COLOR_TOO_LONG_MSG: &'static str = "Ensure this field has no more than 255 characters.";

/// Checked fields of a page create body; `access` is 0 (public) or 1
/// (private), `parent` the parent page's id.
#[derive(Debug, Clone)]
pub struct PageDraft {
    pub name: String,
    pub access: i16,
    pub color: String,
    pub parent: Option<u128>,
}

/// A text field of the create body: empty when missing or null, `None`
/// when it is not text.
pub open spec fn page_text(v: FieldValue) -> Option<Seq<char>> {
    match v {
        FieldValue::Text(s) => Some(s@),
        FieldValue::Other => None,
        _ => Some(Seq::empty()),
    }
}

/// The access of the create body, or the message refusing it.
pub open spec fn page_access(v: IntValue) -> Result<i16, Seq<char>> {
    match v {
        IntValue::Int(x) => if x == 0 {
            Ok(0)
        } else if x == 1 {
            Ok(1)
        } else {
            Err(invalid_choice_msg(int_text(x as int)))
        },
        IntValue::Other => Err(INTEGER_REQUIRED_MSG@),
        _ => Ok(0),
    }
}

/// The parent of the create body (`Some(None)` for none), or `None` when
/// it is not an id.
pub open spec fn page_parent(v: FieldValue) -> Option<Option<u128>> {
    match v {
        FieldValue::Text(s) => match uuid_value(s@) {
            Some(u) => Some(Some(u)),
            None => None,
        },
        FieldValue::Other => None,
        _ => Some(None),
    }
}

/// The first error of a page create body, as `(key, message)`, in the
/// order name, access, color, parent; or the checked fields.
pub open spec fn page_create_outcome(
    name: FieldValue,
    access: IntValue,
    color: FieldValue,
    parent: FieldValue,
) -> Result<(Seq<char>, i16, Seq<char>, Option<u128>), (Seq<char>, Seq<char>)> {
    match page_text(name) {
        None => Err(("name"@, NOT_A_STRING_MSG@)),
        Some(n) => match page_access(access) {
            Err(m) => Err(("access"@, m)),
            Ok(a) => match page_text(color) {
                None => Err(("color"@, NOT_A_STRING_MSG@)),
                Some(c) => if c.len() > 255 {
                    Err(("color"@, COLOR_TOO_LONG_MSG@))
                } else {
                    match page_parent(parent) {
                        None => Err(("error"@, VALID_DETAIL_MSG@)),
                        Some(p) => Ok((n, a, c, p)),
                    }
                },
            },
        },
    }
}

fn page_text_exec(v: &FieldValue) -> (r: Option<String>)
    ensures
        match page_text(*v) {
            Some(t) => r matches Some(x) && x@ == t,
            None => r is None,
        },
{
    match v {
        FieldValue::Text(s) => Some(s.as_str().to_owned()),
        FieldValue::Other => None,
        _ => {
            proof {
                reveal_strlit("");
            }
            Some(String::from_str(""))
        },
    }
}

fn page_access_exec(v: IntValue) -> (r: Result<i16, String>)
    ensures
        match page_access(v) {
            Ok(a) => r == Ok::<i16, String>(a),
            Err(m) => r matches Err(e) && e@ == m,
        },
{
    match v {
        IntValue::Int(x) => {
            if x == 0 {
                Ok(0)
            } else if x == 1 {
                Ok(1)
            } else {
                let t = string_of(&crate::body::int_to_text(x));
                Err(invalid_choice(t.as_str()))
            }
        },
        IntValue::Other => Err(INTEGER_REQUIRED_MSG.to_owned()),
        _ => Ok(0),
    }
}

fn page_parent_exec(v: &FieldValue) -> (r: Option<Option<u128>>)
    ensures
        r == page_parent(*v),
{
    match v {
        FieldValue::Text(s) => match crate::ids::parse_uuid(s.as_str()) {
            Some(u) => Some(Some(u)),
            None => None,
        },
        FieldValue::Other => None,
        _ => Some(None),
    }
}

fn page_field_error(key: &str, message: &str) -> (r: (String, String))
    ensures
        r.0@ == key@,
        r.1@ == message@,
{
    (key.to_owned(), message.to_owned())
}

/// Checks the fields of a page create body that need no lookup: name and
/// color are text (empty when missing or null), color at most 255
/// characters; access 0 or 1 (0 when missing or null); parent, when given,
/// an id (whether that page exists is looked up afterwards).
pub fn check_page_create(
    name: &FieldValue,
    access: IntValue,
    color: &FieldValue,
    parent: &FieldValue,
) -> (r: Result<PageDraft, (String, String)>)
    ensures
        match page_create_outcome(*name, access, *color, *parent) {
            Ok((n, a, c, p)) => r matches Ok(d) && d.name@ == n && d.access == a && d.color@ == c
                && d.parent == p,
            Err((k, m)) => r matches Err(e) && e.0@ == k && e.1@ == m,
        },
{
    let n = match page_text_exec(name) {
        Some(n) => n,
        None => {
            return Err(page_field_error("name", NOT_A_STRING_MSG));
        },
    };
    let a = match page_access_exec(access) {
        Ok(a) => a,
        Err(m) => {
            return Err((String::from_str("access"), m));
        },
    };
    let c = match page_text_exec(color) {
        Some(c) => c,
        None => {
            return Err(page_field_error("color", NOT_A_STRING_MSG));
        },
    };
    if c.as_str().unicode_len() > 255 {
        return Err(page_field_error("color", COLOR_TOO_LONG_MSG));
    }
    let p = match page_parent_exec(parent) {
        Some(p) => p,
        None => {
            return Err(page_field_error("error", VALID_DETAIL_MSG));
        },
    };
    Ok(PageDraft { name: n, access: a, color: c, parent: p })
}

/// The HTML description of a create body: `<p></p>` when missing or null,
/// the text, or an error for anything else.
pub open spec fn page_description_html(v: FieldValue) -> Result<Seq<char>, (Seq<char>, Seq<char>)> {
    match v {
        FieldValue::Text(s) => Ok(s@),
        FieldValue::Other => Err(("description_html"@, NOT_A_STRING_MSG@)),
        _ => Ok(DEFAULT_DESC_HTML@),
    }
}

/// Reads the HTML description of a page create body.
pub fn check_page_description_html(v: &FieldValue) -> (r: Result<String, (String, String)>)
    ensures
        match page_description_html(*v) {
            Ok(h) => r matches Ok(x) && x@ == h,
            Err((k, m)) => r matches Err(e) && e.0@ == k && e.1@ == m,
        },
{
    match v {
        FieldValue::Text(s) => Ok(s.as_str().to_owned()),
        FieldValue::Other => Err(page_field_error("description_html", NOT_A_STRING_MSG)),
        _ => Ok(DEFAULT_DESC_HTML.to_owned()),
    }
}

/// The binary description of a create body: none when missing, null or
/// empty text; the decoded and validated bytes of other text (an error
/// under `description_binary` when they are refused); an error for
/// anything else.
pub open spec fn page_description_binary(v: FieldValue) -> Result<Option<Seq<u8>>, (Seq<char>, Seq<char>)> {
    match v {
        FieldValue::Text(s) => if s@.len() == 0 {
            Ok(None)
        } else {
            match spec_check_decoded(base64_standard_decode(trim(s@))) {
                Ok(d) => Ok(Some(d)),
                Err(m) => Err(("description_binary"@, m)),
            }
        },
        FieldValue::Other => Err(("error"@, VALID_DETAIL_MSG@)),
        _ => Ok(None),
    }
}

/// Reads the binary description of a page create body.
pub fn check_page_description_binary(v: &FieldValue) -> (r: Result<Option<Vec<u8>>, (String, String)>)
    ensures
        match page_description_binary(*v) {
            Ok(Some(d)) => r matches Ok(Some(x)) && x@ == d,
            Ok(None) => r matches Ok(None),
            Err((k, m)) => r matches Err(e) && e.0@ == k && e.1@ == m,
        },
{
    match v {
        FieldValue::Text(s) => {
            if s.as_str().unicode_len() == 0 {
                return Ok(None);
            }
            match decode_description_binary(s.as_str()) {
                Ok(b) => Ok(Some(b)),
                Err(e) => Err((String::from_str("description_binary"), e)),
            }
        },
        FieldValue::Other => Err(page_field_error("error", VALID_DETAIL_MSG)),
        _ => Ok(None),
    }
}

/// The parent change of a patch body: `Ok(None)` leaves it unchanged
/// (key missing), `Ok(Some(None))` clears it (null or empty text),
/// `Ok(Some(Some(id)))` sets it; `Err` when the value is not an id.
pub open spec fn page_patch_parent(v: FieldValue) -> Result<Option<Option<u128>>, ()> {
    match v {
        FieldValue::Missing => Ok(None),
        FieldValue::Null => Ok(Some(None)),
        FieldValue::Text(s) => if s@.len() == 0 {
            Ok(Some(None))
        } else {
            match uuid_value(s@) {
                Some(u) => Ok(Some(Some(u))),
                None => Err(()),
            }
        },
        FieldValue::Other => Err(()),
    }
}

/// Reads the parent change of a page patch body (whether that page exists
/// is looked up afterwards).
pub fn check_page_patch_parent(v: &FieldValue) -> (r: Result<Option<Option<u128>>, ()>)
    ensures
        r == page_patch_parent(*v),
{
    match v {
        FieldValue::Missing => Ok(None),
        FieldValue::Null => Ok(Some(None)),
        FieldValue::Text(s) => {
            if s.as_str().unicode_len() == 0 {
                Ok(Some(None))
            } else {
                match crate::ids::parse_uuid(s.as_str()) {
                    Some(u) => Ok(Some(Some(u))),
                    None => Err(()),
                }
            }
        },
        FieldValue::Other => Err(()),
    }
}

/// Checked fields of a page patch body; `None` leaves a field unchanged.
#[derive(Debug, Clone)]
pub struct PagePatch {
    pub access: Option<i16>,
    pub name: Option<String>,
    pub color: Option<String>,
    pub description_html: Option<String>,
}

/// A text field of a patch that may be null: `Ok(None)` when missing or
/// null, `Err` when it is not text.
pub open spec fn patch_text(v: FieldValue) -> Result<Option<Seq<char>>, ()> {
    match v {
        FieldValue::Text(s) => Ok(Some(s@)),
        FieldValue::Other => Err(()),
        _ => Ok(None),
    }
}

/// The first error of a page patch body after the parent, as `(key,
/// message)`, in the handler's order: access must be an integer; a changed
/// access needs the owner; name, when given, must be text; color, when
/// given, text of at most 255 characters; the HTML description, when given,
/// text. The access is taken modulo 2^16, as a 16-bit value.
pub open spec fn page_patch_outcome(
    cur_access: i16,
    is_owner: bool,
    access: IntValue,
    name: FieldValue,
    color: FieldValue,
    html: FieldValue,
) -> Result<(Option<i16>, Option<Seq<char>>, Option<Seq<char>>, Option<Seq<char>>), (Seq<char>, Seq<char>)> {
    let body_access: Option<i16> = match access {
        IntValue::Int(x) => Some(x as i16),
        _ => None,
    };
    if access is Null || access is Other {
        Err(("error"@, VALID_DETAIL_MSG@))
    } else if body_access is Some && body_access->0 != cur_access && !is_owner {
        Err(("error"@, ACCESS_QUIRK_MSG@))
    } else {
        let n = match name {
            FieldValue::Missing => Ok(None),
            FieldValue::Text(s) => Ok(Some(s@)),
            _ => Err(()),
        };
        match n {
            Err(_) => Err(("name"@, NOT_A_STRING_MSG@)),
            Ok(n) => match patch_text(color) {
                Err(_) => Err(("color"@, NOT_A_STRING_MSG@)),
                Ok(c) => if c is Some && c->0.len() > 255 {
                    Err(("color"@, COLOR_TOO_LONG_MSG@))
                } else {
                    match patch_text(html) {
                        Err(_) => Err(("description_html"@, NOT_A_STRING_MSG@)),
                        Ok(h) => Ok((body_access, n, c, h)),
                    }
                },
            },
        }
    }
}

fn patch_text_exec(v: &FieldValue) -> (r: Result<Option<String>, ()>)
    ensures
        match patch_text(*v) {
            Ok(Some(t)) => r matches Ok(Some(x)) && x@ == t,
            Ok(None) => r matches Ok(None),
            Err(_) => r is Err,
        },
{
    match v {
        FieldValue::Text(s) => Ok(Some(s.as_str().to_owned())),
        FieldValue::Other => Err(()),
        _ => Ok(None),
    }
}

/// Checks the fields of a page patch body after the parent, given the
/// page's current access and whether the requester owns it.
pub fn check_page_patch(
    cur_access: i16,
    is_owner: bool,
    access: IntValue,
    name: &FieldValue,
    color: &FieldValue,
    description_html: &FieldValue,
) -> (r: Result<PagePatch, (String, String)>)
    ensures
        match page_patch_outcome(cur_access, is_owner, access, *name, *color, *description_html) {
            Ok((a, n, c, h)) => r matches Ok(p) && p.access == a && (match p.name {
                Some(x) => n == Some(x@),
                None => n is None,
            }) && (match p.color {
                Some(x) => c == Some(x@),
                None => c is None,
            }) && (match p.description_html {
                Some(x) => h == Some(x@),
                None => h is None,
            }),
            Err((k, m)) => r matches Err(e) && e.0@ == k && e.1@ == m,
        },
{
    let body_access: Option<i16> = match access {
        IntValue::Int(x) => Some(#[verifier::truncate] (x as i16)),
        IntValue::Missing => None,
        _ => {
            return Err(page_field_error("error", VALID_DETAIL_MSG));
        },
    };
    if guard_access_change(cur_access, body_access, is_owner).is_err() {
        return Err(page_field_error("error", ACCESS_QUIRK_MSG));
    }
    let n = match name {
        FieldValue::Missing => None,
        FieldValue::Text(s) => Some(s.as_str().to_owned()),
        _ => {
            return Err(page_field_error("name", NOT_A_STRING_MSG));
        },
    };
    let c = match patch_text_exec(color) {
        Ok(c) => c,
        Err(_) => {
            return Err(page_field_error("color", NOT_A_STRING_MSG));
        },
    };
    if let Some(x) = &c {
        if x.as_str().unicode_len() > 255 {
            return Err(page_field_error("color", COLOR_TOO_LONG_MSG));
        }
    }
    let h = match patch_text_exec(description_html) {
        Ok(h) => h,
        Err(_) => {
            return Err(page_field_error("description_html", NOT_A_STRING_MSG));
        },
    };
    Ok(PagePatch { access: body_access, name: n, color: c, description_html: h })
}

// ---------------------------------------------------------------------------
// Binary description
// ---------------------------------------------------------------------------

/// Binary data above 10 MB.
pub const BINARY_TOO_LARGE_MSG: &'static str = "Binary data exceeds maximum size limit (10MB)";

/// Binary data under 4 bytes.
pub const BINARY_TOO_SHORT_MSG: &'static str = "Binary data too short to be valid document format";

/// Binary data that looks like markup or script.
pub const BINARY_SUSPICIOUS_MSG: &'static str = "Binary data contains suspicious content patterns";

/// Largest accepted binary or HTML payload, in bytes.
pub const MAX_CONTENT_BYTES: usize = 10485760;

/// ASCII lowercase of a byte.
pub open spec fn lower_byte(b: u8) -> u8 {
    if 65 <= b <= 90 {
        (b + 32) as u8
    } else {
        b
    }
}

/// The lowercase ASCII pattern `p` occurs at `i` in `d` (ignoring ASCII
/// case).
pub open spec fn bytes_match_ci_at(d: Seq<u8>, p: Seq<char>, i: int) -> bool {
    &&& 0 <= i
    &&& i + p.len() <= d.len()
    &&& forall|j: int| 0 <= j < p.len() ==> lower_byte(#[trigger] d[i + j]) as u32 == p[j] as u32
}

/// `p` occurs somewhere in `d`, ignoring ASCII case.
pub open spec fn bytes_contains_ci(d: Seq<u8>, p: Seq<char>) -> bool {
    exists|i: int| bytes_match_ci_at(d, p, i)
}

/// The first 200 bytes contain a markup or script marker.
pub open spec fn binary_suspicious(d: Seq<u8>) -> bool {
    let head = d.subrange(0, if d.len() < 200 {
        d.len() as int
    } else {
        200
    });
    ||| bytes_contains_ci(head, "<html"@)
    ||| bytes_contains_ci(head, "<!doctype"@)
    ||| bytes_contains_ci(head, "<script"@)
    ||| bytes_contains_ci(head, "javascript:"@)
    ||| bytes_contains_ci(head, "data:"@)
    ||| bytes_contains_ci(head, "<iframe"@)
}

/// Outcome of binary validation: `None` when valid, else the message.
pub open spec fn binary_error(d: Seq<u8>) -> Option<Seq<char>> {
    if d.len() == 0 {
        None
    } else if d.len() > MAX_CONTENT_BYTES {
        Some(BINARY_TOO_LARGE_MSG@)
    } else if d.len() < 4 {
        Some(BINARY_TOO_SHORT_MSG@)
    } else if binary_suspicious(d) {
        Some(BINARY_SUSPICIOUS_MSG@)
    } else {
        None
    }
}

fn bytes_contains_ci_exec(d: &[u8], n: usize, p: &[char]) -> (r: bool)
    requires
        n <= d@.len(),
    ensures
        r == bytes_contains_ci(d@.subrange(0, n as int), p@),
{
    let ghost h = d@.subrange(0, n as int);
    let mut i: usize = 0;
    while i <= n
        invariant
            n <= d@.len(),
            n <= d.len(),
            h == d@.subrange(0, n as int),
            forall|k: int| 0 <= k < i ==> !bytes_match_ci_at(h, p@, k),
        decreases n + 1 - i,
    {
        if p.len() <= n - i {
            let mut j: usize = 0;
            let mut ok = true;
            while j < p.len()
                invariant
                    i + p@.len() <= n,
                    i + p.len() <= n,
                    n <= d.len(),
                    n <= d@.len(),
                    h == d@.subrange(0, n as int),
                    j <= p@.len(),
                    ok ==> forall|t: int| 0 <= t < j ==> lower_byte(#[trigger] h[i + t]) as u32
                        == p@[t] as u32,
                    !ok ==> !bytes_match_ci_at(h, p@, i as int),
                decreases p.len() - j,
            {
                let b = d[i + j];
                let lb: u8 = if 65 <= b && b <= 90 {
                    b + 32
                } else {
                    b
                };
                if ok && lb as u32 != p[j] as u32 {
                    ok = false;
                    assert(h[i + j] == b);
                }
                j = j + 1;
            }
            if ok {
                assert(bytes_match_ci_at(h, p@, i as int));
                return true;
            }
        } else {
            assert forall|k: int| i <= k implies !bytes_match_ci_at(h, p@, k) by {
            }
            assert forall|k: int| 0 <= k implies !bytes_match_ci_at(h, p@, k) by {
            }
            return false;
        }
        i = i + 1;
    }
    assert forall|k: int| 0 <= k implies !bytes_match_ci_at(h, p@, k) by {
    }
    false
}

/// Validates decoded binary description data: empty is valid; more than
/// 10 MB or under 4 bytes is refused; markup or script markers in the
/// first 200 bytes are refused.
pub fn validate_binary_bytes(data: &[u8]) -> (r: Result<(), String>)
    ensures
        match binary_error(data@) {
            Some(m) => r matches Err(e) && e@ == m,
            None => r is Ok,
        },
{
    if data.len() == 0 {
        return Ok(());
    }
    if data.len() > MAX_CONTENT_BYTES {
        return Err(BINARY_TOO_LARGE_MSG.to_owned());
    }
    if data.len() < 4 {
        return Err(BINARY_TOO_SHORT_MSG.to_owned());
    }
    let n = if data.len() < 200 {
        data.len()
    } else {
        200
    };
    let p1 = chars_of("<html");
    let p2 = chars_of("<!doctype");
    let p3 = chars_of("<script");
    let p4 = chars_of("javascript:");
    let p5 = chars_of("data:");
    let p6 = chars_of("<iframe");
    if bytes_contains_ci_exec(data, n, &p1) || bytes_contains_ci_exec(data, n, &p2)
        || bytes_contains_ci_exec(data, n, &p3) || bytes_contains_ci_exec(data, n, &p4)
        || bytes_contains_ci_exec(data, n, &p5) || bytes_contains_ci_exec(data, n, &p6) {
        return Err(BINARY_SUSPICIOUS_MSG.to_owned());
    }
    Ok(())
}

/// What base64 (standard alphabet, padded) decoding of `input` gives:
/// the bytes, or `None` when it is not valid base64.
pub uninterp spec fn base64_standard_decode(input: Seq<char>) -> Option<Seq<u8>>;

/// `base64::engine::general_purpose::STANDARD.decode`: the decoded bytes,
/// or `None` on a decode error; the result is whatever the engine gives
/// for the input, which the contract names without spelling out.
#[verifier::external_body]
fn base64_decode(input: &str) -> (r: Option<Vec<u8>>)
    ensures
        match r {
            Some(v) => base64_standard_decode(input@) == Some(v@),
            None => base64_standard_decode(input@) is None,
        },
{
    match base64::engine::general_purpose::STANDARD.decode(input) {
        Ok(v) => Some(v),
        Err(_) => None,
    }
}

/// Spec of `check_decoded_binary`.
pub open spec fn spec_check_decoded(decoded: Option<Seq<u8>>) -> Result<Seq<u8>, Seq<char>> {
    match decoded {
        None => Err(DESC_DECODE_MSG@),
        Some(d) => match binary_error(d) {
            Some(m) => Err("Invalid binary data: "@ + m),
            None => Ok(d),
        },
    }
}

/// Finishes a description decode from the base64 outcome: undecodable →
/// the decode message; decoded but invalid → `Invalid binary data: <msg>`;
/// else the bytes.
pub fn check_decoded_binary(decoded: Option<Vec<u8>>) -> (r: Result<Vec<u8>, String>)
    ensures
        match spec_check_decoded(
            match decoded {
                Some(v) => Some(v@),
                None => None,
            },
        ) {
            Ok(d) => r matches Ok(v) && v@ == d,
            Err(m) => r matches Err(e) && e@ == m,
        },
{
    let bytes = match decoded {
        Some(b) => b,
        None => {
            return Err(DESC_DECODE_MSG.to_owned());
        },
    };
    match validate_binary_bytes(&bytes) {
        Ok(()) => Ok(bytes),
        Err(e) => {
            let mut m = String::from_str("Invalid binary data: ");
            m.append(e.as_str());
            Err(m)
        },
    }
}

/// Decodes a `description_binary` body value: empty → no bytes; otherwise
/// the trimmed value is base64-decoded and validated.
pub fn decode_description_binary(raw: &str) -> (r: Result<Vec<u8>, String>)
    ensures
        raw@.len() == 0 ==> (r matches Ok(v) && v@.len() == 0),
        raw@.len() != 0 ==> match spec_check_decoded(base64_standard_decode(trim(raw@))) {
            Ok(d) => r matches Ok(v) && v@ == d,
            Err(m) => r matches Err(e) && e@ == m,
        },
{
    if raw.is_empty() {
        return Ok(Vec::new());
    }
    let v = chars_of(raw);
    let t = crate::text::string_of(&trim_chars(&v));
    let decoded = base64_decode(t.as_str());
    check_decoded_binary(decoded)
}

// ---------------------------------------------------------------------------
// HTML cleaning: specifications
// ---------------------------------------------------------------------------

/// One past the first `>` at or after `k`, or the length when there is
/// none.
pub open spec fn close_gt(s: Seq<char>, k: int) -> int {
    match find_char_from(s, '>', k) {
        Some(i) => i + 1,
        None => s.len() as int,
    }
}

/// The character after an element-name match ends the name (or the text
/// ends there).
pub open spec fn after_tag_ok(s: Seq<char>, e: int) -> bool {
    e >= s.len() || s[e] == '>' || s[e] == '/' || is_ascii_ws(s[e])
}

/// `s[rest..]` with every element block `open ... close ...>` removed
/// (ASCII case-insensitive); an unclosed block runs to the end.
pub open spec fn strip_blocks_from(s: Seq<char>, open: Seq<char>, close: Seq<char>, rest: int) -> Seq<char>
    decreases s.len() - rest,
{
    if rest < 0 || rest > s.len() || open.len() == 0 {
        Seq::empty()
    } else {
        match find_ci_from(s, open, rest) {
            None => s.subrange(rest, s.len() as int),
            Some(a) => {
                proof {
                    lemma_find_ci_from_spec(s, open, rest);
                }
                let e = a + open.len();
                if !after_tag_ok(s, e) {
                    s.subrange(rest, a + 1) + strip_blocks_from(s, open, close, a + 1)
                } else {
                    s.subrange(rest, a) + match find_ci_from(s, close, close_gt(s, e)) {
                        None => Seq::empty(),
                        Some(c) => {
                            proof {
                                lemma_close_gt(s, e);
                                lemma_find_ci_from_spec(s, close, close_gt(s, e));
                                lemma_close_gt(s, c);
                            }
                            strip_blocks_from(s, open, close, close_gt(s, c))
                        },
                    }
                }
            },
        }
    }
}

/// `s[rest..]` with every `<!-- ... -->` comment removed; an unclosed
/// comment runs to the end.
pub open spec fn strip_comments_from(s: Seq<char>, rest: int) -> Seq<char>
    decreases s.len() - rest,
{
    if rest < 0 || rest > s.len() {
        Seq::empty()
    } else {
        match find_from(s, "<!--"@, rest) {
            None => s.subrange(rest, s.len() as int),
            Some(c) => {
                proof {
                    lemma_find_from_spec(s, "<!--"@, rest);
                }
                s.subrange(rest, c) + match find_from(s, "-->"@, c) {
                    None => Seq::empty(),
                    Some(e) => {
                        proof {
                            lemma_find_from_spec(s, "-->"@, c);
                            reveal_strlit("-->");
                        }
                        strip_comments_from(s, e + 3)
                    },
                }
            },
        }
    }
}

/// Stop conditions of the tag tokenizer's scans: 0 tag-name end, 1 first
/// character that is neither whitespace nor `/`, 2 attribute-name end,
/// 3 first non-whitespace, 4 the quote `q`, 5 unquoted-value end.
pub open spec fn stops(kind: u8, q: char, c: char) -> bool {
    if kind == 0 {
        is_ascii_ws(c) || c == '>' || c == '/'
    } else if kind == 1 {
        !(is_ascii_ws(c) || c == '/')
    } else if kind == 2 {
        c == '=' || is_ascii_ws(c) || c == '>'
    } else if kind == 3 {
        !is_ascii_ws(c)
    } else if kind == 4 {
        c == q
    } else {
        is_ascii_ws(c) || c == '>'
    }
}

/// First index at or after `i` where scan `kind` stops (or the length).
pub open spec fn scan(t: Seq<char>, i: int, kind: u8, q: char) -> int
    decreases t.len() - i,
{
    if i < 0 || i >= t.len() {
        t.len() as int
    } else if stops(kind, q, t[i]) {
        i
    } else {
        scan(t, i + 1, kind, q)
    }
}

/// An event-handler attribute: `on` (any ASCII case) plus more.
pub open spec fn is_event_attr(name: Seq<char>) -> bool {
    name.len() > 2 && lower_code(name[0]) == 111 && lower_code(name[1]) == 110
}

/// `a` equals the lowercase `lit`, ignoring ASCII case.
pub open spec fn eq_ci(a: Seq<char>, lit: Seq<char>) -> bool {
    a.len() == lit.len() && matches_ci_at(a, lit, 0)
}

/// A URL-carrying attribute: `href` or `src`.
pub open spec fn is_url_attr(name: Seq<char>) -> bool {
    eq_ci(name, "href"@) || eq_ci(name, "src"@)
}

/// A URL with a script or data scheme.
pub open spec fn dangerous_url(v: Seq<char>) -> bool {
    matches_ci_at(v, "javascript:"@, 0) || matches_ci_at(v, "data:"@, 0) || matches_ci_at(
        v,
        "vbscript:"@,
        0,
    )
}

/// Raw text of the attribute starting at `ns`, its value, and where the
/// next attribute search starts.
pub open spec fn attr_parts(t: Seq<char>, ns: int) -> (Seq<char>, Seq<char>, int) {
    let i2 = scan(t, ns, 2, ' ');
    let name = t.subrange(ns, i2);
    let i3 = scan(t, i2, 3, ' ');
    if i3 < t.len() && t[i3] == '=' {
        let i4 = scan(t, i3 + 1, 3, ' ');
        if i4 < t.len() && (t[i4] == '"' || t[i4] == '\'') {
            let q = t[i4];
            let i5 = scan(t, i4 + 1, 4, q);
            let val = t.subrange(i4 + 1, i5);
            (name + seq!['=', q] + val + seq![q], val, if i5 < t.len() {
                i5 + 1
            } else {
                i5
            })
        } else {
            let i5 = scan(t, i4, 5, ' ');
            let val = t.subrange(i4, i5);
            (name + seq!['='] + val, val, i5)
        }
    } else {
        (name, Seq::empty(), i3)
    }
}

/// The attribute starting at `ns` as kept (none for an event handler; a
/// neutral `href`/`src` for a script or data URL) and the next index.
pub open spec fn attr_step(t: Seq<char>, ns: int) -> (Option<Seq<char>>, int) {
    let name = t.subrange(ns, scan(t, ns, 2, ' '));
    let (raw, val, next) = attr_parts(t, ns);
    let piece = if is_event_attr(name) {
        None
    } else if is_url_attr(name) && dangerous_url(trim(val)) {
        Some(name + "=\"#\""@)
    } else {
        Some(raw)
    };
    (piece, next)
}

/// The kept attributes of tag `t` from index `i` on.
pub open spec fn attrs_from(t: Seq<char>, i: int) -> Seq<Seq<char>>
    decreases t.len() - i,
{
    if i < 0 || i >= t.len() {
        Seq::empty()
    } else {
        let i1 = scan(t, i, 1, ' ');
        if i1 >= t.len() || t[i1] == '>' {
            Seq::empty()
        } else {
            proof {
                lemma_scan(t, i, 1, ' ');
                lemma_attr_progress(t, i1);
            }
            let (piece, next) = attr_step(t, i1);
            (match piece {
                Some(p) => seq![p],
                None => Seq::empty(),
            }) + attrs_from(t, next)
        }
    }
}

/// `parts.join(" ")`.
pub open spec fn join_space(parts: Seq<Seq<char>>) -> Seq<char>
    decreases parts.len(),
{
    if parts.len() == 0 {
        Seq::empty()
    } else if parts.len() == 1 {
        parts[0]
    } else {
        join_space(parts.drop_last()) + seq![' '] + parts.last()
    }
}

/// `s` ends with `p`.
pub open spec fn ends_with(s: Seq<char>, p: Seq<char>) -> bool {
    p.len() <= s.len() && matches_at(s, p, s.len() - p.len())
}

/// A tag rebuilt from its name and kept attributes, self-closing marker
/// preserved.
pub open spec fn spec_clean_tag(t: Seq<char>) -> Seq<char> {
    let ne = scan(t, 1, 0, ' ');
    let kept = seq![t.subrange(0, ne)] + attrs_from(t, ne);
    let j = join_space(kept);
    let j2 = if ends_with(trim_end(t), "/>"@) && !ends_with(j, "/>"@) {
        j + " /"@
    } else {
        j
    };
    j2 + ">"@
}

/// `s[i..]` with every opening tag cleaned; closing tags, declarations
/// and text pass through.
pub open spec fn strip_attrs_from(s: Seq<char>, i: int) -> Seq<char>
    decreases s.len() - i,
{
    if i < 0 || i >= s.len() {
        Seq::empty()
    } else {
        match find_char_from(s, '<', i) {
            None => s.subrange(i, s.len() as int),
            Some(a) => {
                proof {
                    lemma_find_char_from_spec(s, '<', i);
                    lemma_close_gt(s, a);
                    lemma_find_char_from_spec(s, '>', a);
                }
                let end = close_gt(s, a);
                let tag = s.subrange(a, end);
                s.subrange(i, a) + (if a + 1 < s.len() && (s[a + 1] == '/' || s[a + 1] == '!') {
                    tag
                } else {
                    spec_clean_tag(tag)
                }) + strip_attrs_from(s, end)
            },
        }
    }
}

/// One pass removing `<script>` blocks, then `<style>` blocks.
pub open spec fn strip_script_style(s: Seq<char>) -> Seq<char> {
    strip_blocks_from(strip_blocks_from(s, "<script"@, "</script"@, 0), "<style"@, "</style"@, 0)
}

/// One pass removing script and style blocks, then comments.
pub open spec fn strip_blocks_and_comments(s: Seq<char>) -> Seq<char> {
    strip_comments_from(strip_script_style(s), 0)
}

/// Block and comment passes repeated until one removes nothing: removing
/// a block can join the text around it into a new block or comment.
pub open spec fn blocks_and_comments_fix(s: Seq<char>) -> Seq<char>
    decreases s.len(),
{
    let t = strip_blocks_and_comments(s);
    if t.len() < s.len() {
        blocks_and_comments_fix(t)
    } else {
        t
    }
}

/// Script and style passes repeated until one removes nothing.
pub open spec fn script_style_fix(s: Seq<char>) -> Seq<char>
    decreases s.len(),
{
    let t = strip_script_style(s);
    if t.len() < s.len() {
        script_style_fix(t)
    } else {
        t
    }
}

/// The full cleaning pipeline: blocks and comments removed until none is
/// left, opening tags cleaned, and script and style blocks removed once
/// more until none is left.
pub open spec fn spec_sanitize(s: Seq<char>) -> Seq<char> {
    script_style_fix(strip_attrs_from(blocks_and_comments_fix(s), 0))
}

/// An element `open` (ASCII case-insensitively, such as `<script`) starts
/// somewhere in `s`: followed by `>`, `/`, ASCII whitespace or the end.
pub open spec fn has_element(s: Seq<char>, open: Seq<char>) -> bool {
    exists|i: int| #[trigger] matches_ci_at(s, open, i) && after_tag_ok(s, i + open.len())
}

// ---------------------------------------------------------------------------
// HTML cleaning: lemmas
// ---------------------------------------------------------------------------

pub proof fn lemma_close_gt(s: Seq<char>, k: int)
    requires
        0 <= k <= s.len(),
    ensures
        k <= close_gt(s, k) <= s.len(),
        find_char_from(s, '>', k) is Some ==> k < close_gt(s, k),
{
    lemma_find_char_from_spec(s, '>', k);
}

pub proof fn lemma_scan(t: Seq<char>, i: int, kind: u8, q: char)
    requires
        0 <= i,
    ensures
        i <= t.len() ==> i <= scan(t, i, kind, q) <= t.len(),
        scan(t, i, kind, q) < t.len() ==> stops(kind, q, t[scan(t, i, kind, q)]),
        forall|k: int| i <= k < scan(t, i, kind, q) ==> !stops(kind, q, #[trigger] t[k]),
    decreases t.len() - i,
{
    if i < t.len() && !stops(kind, q, t[i]) {
        lemma_scan(t, i + 1, kind, q);
    }
}

pub proof fn lemma_attr_progress(t: Seq<char>, ns: int)
    requires
        0 <= ns < t.len(),
        !is_ascii_ws(t[ns]),
        t[ns] != '/',
        t[ns] != '>',
    ensures
        ns < attr_step(t, ns).1 <= t.len(),
{
    lemma_scan(t, ns, 2, ' ');
    let i2 = scan(t, ns, 2, ' ');
    lemma_scan(t, i2, 3, ' ');
    let i3 = scan(t, i2, 3, ' ');
    if i3 < t.len() && t[i3] == '=' {
        lemma_scan(t, i3 + 1, 3, ' ');
        let i4 = scan(t, i3 + 1, 3, ' ');
        if i4 < t.len() && (t[i4] == '"' || t[i4] == '\'') {
            lemma_scan(t, i4 + 1, 4, t[i4]);
        } else {
            lemma_scan(t, i4, 5, ' ');
        }
    } else {
        assert(t[ns] != '=');
    }
}

// ---------------------------------------------------------------------------
// HTML cleaning: executable
// ---------------------------------------------------------------------------

fn stops_exec(kind: u8, q: char, c: char) -> (r: bool)
    ensures
        r == stops(kind, q, c),
{
    let ws = is_ascii_ws_char(c);
    if kind == 0 {
        ws || c == '>' || c == '/'
    } else if kind == 1 {
        !(ws || c == '/')
    } else if kind == 2 {
        c == '=' || ws || c == '>'
    } else if kind == 3 {
        !ws
    } else if kind == 4 {
        c == q
    } else {
        ws || c == '>'
    }
}

fn scan_exec(t: &[char], i: usize, kind: u8, q: char) -> (r: usize)
    ensures
        r == scan(t@, i as int, kind, q),
        i <= t@.len() ==> i <= r,
        r <= t@.len() || r == i,
{
    let mut k = i;
    if k >= t.len() {
        return t.len();
    }
    while k < t.len() && !stops_exec(kind, q, t[k])
        invariant
            i <= k <= t@.len(),
            scan(t@, i as int, kind, q) == scan(t@, k as int, kind, q),
        decreases t.len() - k,
    {
        k = k + 1;
    }
    k
}

fn close_gt_exec(s: &[char], k: usize) -> (r: usize)
    requires
        k <= s@.len(),
    ensures
        r == close_gt(s@, k as int),
{
    let n = s.len();
    proof {
        lemma_close_gt(s@, k as int);
        lemma_find_char_from_spec(s@, '>', k as int);
    }
    match find_char_exec(s, '>', k) {
        Some(i) => i + 1,
        None => n,
    }
}

/// Removes every element block `open ... close ...>` from `s`.
fn strip_blocks(s: &[char], open: &[char], close: &[char]) -> (r: Vec<char>)
    requires
        open@.len() > 0,
    ensures
        r@ == strip_blocks_from(s@, open@, close@, 0),
{
    let n = s.len();
    let mut out: Vec<char> = Vec::new();
    let mut rest: usize = 0;
    loop
        invariant_except_break
            rest <= n,
            n == s@.len(),
            open@.len() > 0,
            strip_blocks_from(s@, open@, close@, 0) == out@ + strip_blocks_from(
                s@,
                open@,
                close@,
                rest as int,
            ),
        ensures
            out@ == strip_blocks_from(s@, open@, close@, 0),
        decreases n - rest,
    {
        proof {
            lemma_find_ci_from_spec(s@, open@, rest as int);
        }
        match find_ci_from_exec(s, open, rest) {
            None => {
                push_range(&mut out, s, rest, n);
                break ;
            },
            Some(a) => {
                let e = a + open.len();
                let ok = e >= n || s[e] == '>' || s[e] == '/' || is_ascii_ws_char(s[e]);
                if !ok {
                    let ghost before = out@;
                    push_range(&mut out, s, rest, a + 1);
                    proof {
                        assert(out@ + strip_blocks_from(s@, open@, close@, a + 1) =~= before + (
                        s@.subrange(rest as int, a + 1) + strip_blocks_from(
                            s@,
                            open@,
                            close@,
                            a + 1,
                        )));
                    }
                    rest = a + 1;
                } else {
                    let ghost before = out@;
                    push_range(&mut out, s, rest, a);
                    let after_open = close_gt_exec(s, e);
                    proof {
                        lemma_close_gt(s@, e as int);
                        lemma_find_ci_from_spec(s@, close@, after_open as int);
                    }
                    match find_ci_from_exec(s, close, after_open) {
                        Some(c) => {
                            let next = close_gt_exec(s, c);
                            proof {
                                lemma_close_gt(s@, c as int);
                            }
                            assert(out@ + strip_blocks_from(s@, open@, close@, next as int) =~= before
                                + (s@.subrange(rest as int, a as int) + strip_blocks_from(
                                s@,
                                open@,
                                close@,
                                next as int,
                            )));
                            rest = next;
                        },
                        None => {
                            assert(out@ =~= before + (s@.subrange(rest as int, a as int)
                                + Seq::<char>::empty()));
                            break ;
                        },
                    }
                }
            },
        }
    }
    out
}

/// Removes every `<!-- ... -->` comment from `s`.
fn strip_comments(s: &[char]) -> (r: Vec<char>)
    ensures
        r@ == strip_comments_from(s@, 0),
{
    let n = s.len();
    let open = chars_of("<!--");
    let close = chars_of("-->");
    proof {
        reveal_strlit("-->");
    }
    let mut out: Vec<char> = Vec::new();
    let mut rest: usize = 0;
    loop
        invariant_except_break
            rest <= n,
            n == s@.len(),
            open@ == "<!--"@,
            close@ == "-->"@,
            close@.len() == 3,
            strip_comments_from(s@, 0) == out@ + strip_comments_from(s@, rest as int),
        ensures
            out@ == strip_comments_from(s@, 0),
        decreases n - rest,
    {
        proof {
            lemma_find_from_spec(s@, open@, rest as int);
        }
        match find_from_exec(s, &open, rest) {
            None => {
                push_range(&mut out, s, rest, n);
                break ;
            },
            Some(c) => {
                let ghost before = out@;
                push_range(&mut out, s, rest, c);
                proof {
                    lemma_find_from_spec(s@, close@, c as int);
                }
                match find_from_exec(s, &close, c) {
                    Some(e) => {
                        assert(out@ + strip_comments_from(s@, e + 3) =~= before + (s@.subrange(
                            rest as int,
                            c as int,
                        ) + strip_comments_from(s@, e + 3)));
                        rest = e + 3;
                    },
                    None => {
                        assert(out@ =~= before + (s@.subrange(rest as int, c as int)
                            + Seq::<char>::empty()));
                        break ;
                    },
                }
            },
        }
    }
    out
}

/// `parts.join(" ")` as a character vector.
fn join_space_exec(parts: &Vec<Vec<char>>) -> (r: Vec<char>)
    ensures
        r@ == join_space(crate::text::views(parts@)),
{
    let mut out: Vec<char> = Vec::new();
    let mut k: usize = 0;
    let ghost vs = crate::text::views(parts@);
    while k < parts.len()
        invariant
            k <= parts@.len(),
            vs == crate::text::views(parts@),
            out@ == join_space(vs.take(k as int)),
        decreases parts.len() - k,
    {
        proof {
            let t = vs.take(k + 1);
            assert(t.drop_last() =~= vs.take(k as int));
            assert(t.last() == parts@[k as int]@);
            if k == 0 {
                assert(vs.take(0) =~= Seq::<Seq<char>>::empty());
            }
        }
        if k > 0 {
            out.push(' ');
        }
        push_all(&mut out, &parts[k]);
        proof {
            let t = vs.take(k + 1);
            if k == 0 {
                assert(out@ =~= t[0]);
            } else {
                assert(out@ =~= join_space(t.drop_last()) + seq![' '] + t.last());
            }
        }
        k = k + 1;
    }
    proof {
        assert(vs.take(parts@.len() as int) =~= vs);
    }
    out
}

fn eq_ci_exec(a: &[char], lit: &[char]) -> (r: bool)
    ensures
        r == eq_ci(a@, lit@),
{
    a.len() == lit.len() && matches_ci_at_exec(a, lit, 0)
}

/// The attribute starting at `ns` as kept, and where the scan goes on.
fn attr_step_exec(t: &[char], ns: usize) -> (r: (Option<Vec<char>>, usize))
    requires
        ns < t@.len(),
    ensures
        ({
            let (p, n) = attr_step(t@, ns as int);
            &&& r.1 == n
            &&& match p {
                Some(x) => r.0 matches Some(v) && v@ == x,
                None => r.0 is None,
            }
        }),
{
    let len = t.len();
    proof {
        lemma_scan(t@, ns as int, 2, ' ');
    }
    let i2 = scan_exec(t, ns, 2, ' ');
    let mut name: Vec<char> = Vec::new();
    push_range(&mut name, t, ns, i2);
    proof {
        lemma_scan(t@, i2 as int, 3, ' ');
    }
    let i3 = scan_exec(t, i2, 3, ' ');
    let mut raw: Vec<char> = Vec::new();
    push_all(&mut raw, &name);
    let mut val: Vec<char> = Vec::new();
    let next: usize;
    if i3 < len && t[i3] == '=' {
        proof {
            lemma_scan(t@, i3 + 1, 3, ' ');
        }
        let i4 = scan_exec(t, i3 + 1, 3, ' ');
        if i4 < len && (t[i4] == '"' || t[i4] == '\'') {
            let q = t[i4];
            proof {
                lemma_scan(t@, i4 + 1, 4, q);
            }
            let i5 = scan_exec(t, i4 + 1, 4, q);
            push_range(&mut val, t, i4 + 1, i5);
            raw.push('=');
            raw.push(q);
            push_all(&mut raw, &val);
            raw.push(q);
            next = if i5 < len {
                i5 + 1
            } else {
                i5
            };
            proof {
                assert(raw@ =~= name@ + seq!['=', q] + val@ + seq![q]);
            }
        } else {
            proof {
                lemma_scan(t@, i4 as int, 5, ' ');
            }
            let i5 = scan_exec(t, i4, 5, ' ');
            push_range(&mut val, t, i4, i5);
            raw.push('=');
            push_all(&mut raw, &val);
            next = i5;
            proof {
                assert(raw@ =~= name@ + seq!['='] + val@);
            }
        }
    } else {
        next = i3;
        proof {
            assert(raw@ =~= name@);
            assert(val@ =~= Seq::<char>::empty());
        }
    }
    assert(attr_parts(t@, ns as int) == (raw@, val@, next as int));
    let is_event = name.len() > 2 && lower_code_of(name[0]) == 111 && lower_code_of(name[1]) == 110;
    if is_event {
        return (None, next);
    }
    let href = chars_of("href");
    let src = chars_of("src");
    let js = chars_of("javascript:");
    let data = chars_of("data:");
    let vb = chars_of("vbscript:");
    if eq_ci_exec(&name, &href) || eq_ci_exec(&name, &src) {
        let tv = trim_chars(&val);
        if matches_ci_at_exec(&tv, &js, 0) || matches_ci_at_exec(&tv, &data, 0)
            || matches_ci_at_exec(&tv, &vb, 0) {
            let mut piece: Vec<char> = Vec::new();
            push_all(&mut piece, &name);
            let tail = chars_of("=\"#\"");
            push_all(&mut piece, &tail);
            return (Some(piece), next);
        }
    }
    (Some(raw), next)
}

/// Rebuilds one opening tag: name first, event-handler attributes
/// dropped, script/data URLs neutralised, self-closing marker kept.
fn clean_tag(t: &[char]) -> (r: Vec<char>)
    requires
        t@.len() >= 1,
    ensures
        r@ == spec_clean_tag(t@),
{
    let len = t.len();
    proof {
        lemma_scan(t@, 1, 0, ' ');
    }
    let ne = scan_exec(t, 1, 0, ' ');
    let mut first: Vec<char> = Vec::new();
    push_range(&mut first, t, 0, ne);
    let mut kept: Vec<Vec<char>> = Vec::new();
    kept.push(first);
    let ghost full = seq![t@.subrange(0, ne as int)] + attrs_from(t@, ne as int);
    let mut i = ne;
    proof {
        assert(crate::text::views(kept@) =~= seq![t@.subrange(0, ne as int)]);
    }
    loop
        invariant_except_break
            i <= len,
            len == t@.len(),
            full == crate::text::views(kept@) + attrs_from(t@, i as int),
        ensures
            full == crate::text::views(kept@),
        decreases len - i,
    {
        if i >= len {
            assert(crate::text::views(kept@) + Seq::<Seq<char>>::empty() =~= crate::text::views(
                kept@,
            ));
            break ;
        }
        proof {
            lemma_scan(t@, i as int, 1, ' ');
        }
        let i1 = scan_exec(t, i, 1, ' ');
        if i1 >= len || t[i1] == '>' {
            assert(crate::text::views(kept@) + Seq::<Seq<char>>::empty() =~= crate::text::views(
                kept@,
            ));
            break ;
        }
        proof {
            lemma_attr_progress(t@, i1 as int);
        }
        let ghost before = crate::text::views(kept@);
        let (piece, next) = attr_step_exec(t, i1);
        match piece {
            Some(p) => {
                kept.push(p);
            },
            None => {},
        }
        proof {
            let (sp, sn) = attr_step(t@, i1 as int);
            let head: Seq<Seq<char>> = match sp {
                Some(x) => seq![x],
                None => Seq::empty(),
            };
            assert(crate::text::views(kept@) =~= before + head);
        }
        i = next;
    }
    let j = join_space_exec(&kept);
    let ghost jv = j@;
    proof {
        assert(jv == join_space(full));
    }
    let thi = crate::text::trim_end_bound(t);
    let ghost te = trim_end(t@);
    proof {
        reveal_strlit("/>");
        assert(te == t@.subrange(0, thi as int));
    }
    let tail_closed = thi >= 2 && t[thi - 2] == '/' && t[thi - 1] == '>';
    let j_closed = j.len() >= 2 && j[j.len() - 2] == '/' && j[j.len() - 1] == '>';
    proof {
        assert(tail_closed == ends_with(te, "/>"@)) by {
            if tail_closed {
                assert(matches_at(te, "/>"@, te.len() - 2));
            }
            if ends_with(te, "/>"@) {
                assert(te[te.len() - 2 + 0] == '/');
                assert(te[te.len() - 2 + 1] == '>');
            }
        }
        assert(j_closed == ends_with(jv, "/>"@)) by {
            if j_closed {
                assert(matches_at(jv, "/>"@, jv.len() - 2));
            }
            if ends_with(jv, "/>"@) {
                assert(jv[jv.len() - 2 + 0] == '/');
                assert(jv[jv.len() - 2 + 1] == '>');
            }
        }
    }
    let mut out = j;
    if tail_closed && !j_closed {
        out.push(' ');
        out.push('/');
    }
    out.push('>');
    proof {
        reveal_strlit(" /");
        reveal_strlit(">");
        if tail_closed && !j_closed {
            assert(out@ =~= jv + " /"@ + ">"@);
        } else {
            assert(out@ =~= jv + ">"@);
        }
    }
    out
}

/// Cleans every opening tag of `s`; text, closing tags and declarations
/// pass through.
fn strip_attrs(s: &[char]) -> (r: Vec<char>)
    ensures
        r@ == strip_attrs_from(s@, 0),
{
    let n = s.len();
    let mut out: Vec<char> = Vec::new();
    let mut i: usize = 0;
    loop
        invariant_except_break
            i <= n,
            n == s@.len(),
            strip_attrs_from(s@, 0) == out@ + strip_attrs_from(s@, i as int),
        ensures
            out@ == strip_attrs_from(s@, 0),
        decreases n - i,
    {
        if i >= n {
            assert(out@ + Seq::<char>::empty() =~= out@);
            break ;
        }
        proof {
            lemma_find_char_from_spec(s@, '<', i as int);
        }
        match find_char_exec(s, '<', i) {
            None => {
                push_range(&mut out, s, i, n);
                break ;
            },
            Some(a) => {
                let ghost before = out@;
                push_range(&mut out, s, i, a);
                proof {
                    lemma_close_gt(s@, a as int);
                    lemma_find_char_from_spec(s@, '>', a as int);
                }
                let end = close_gt_exec(s, a);
                let mut tag: Vec<char> = Vec::new();
                push_range(&mut tag, s, a, end);
                let passthrough = a + 1 < n && (s[a + 1] == '/' || s[a + 1] == '!');
                let ghost mid = out@;
                if passthrough {
                    push_all(&mut out, &tag);
                } else {
                    let cleaned = clean_tag(&tag);
                    push_all(&mut out, &cleaned);
                }
                proof {
                    let piece = if passthrough {
                        tag@
                    } else {
                        spec_clean_tag(tag@)
                    };
                    assert(out@ == mid + piece);
                    assert(out@ + strip_attrs_from(s@, end as int) =~= before + (s@.subrange(
                        i as int,
                        a as int,
                    ) + piece + strip_attrs_from(s@, end as int)));
                }
                i = end;
            },
        }
    }
    out
}

/// Removes `<tag ...> ... </tag>` blocks (ASCII case-insensitive) from
/// `s`; `tag` is a lowercase element name.
fn strip_element_blocks(s: &str, tag: &str) -> (r: String)
    ensures
        r@ == strip_blocks_from(s@, "<"@ + tag@, "</"@ + tag@, 0),
{
    let v = chars_of(s);
    let t = chars_of(tag);
    let mut open = chars_of("<");
    push_all(&mut open, &t);
    let mut close = chars_of("</");
    push_all(&mut close, &t);
    proof {
        reveal_strlit("<");
    }
    let out = strip_blocks(&v, &open, &close);
    string_of(&out)
}

/// Removes every `<!-- ... -->` comment from `s`.
fn strip_html_comments(s: &str) -> (r: String)
    ensures
        r@ == strip_comments_from(s@, 0),
{
    let v = chars_of(s);
    let out = strip_comments(&v);
    string_of(&out)
}

/// Cleans every opening tag of `s`.
fn strip_tag_attributes(s: &str) -> (r: String)
    ensures
        r@ == strip_attrs_from(s@, 0),
{
    let v = chars_of(s);
    let out = strip_attrs(&v);
    string_of(&out)
}

fn strip_script_style_exec(s: &str) -> (r: String)
    ensures
        r@ == strip_script_style(s@),
{
    let a = strip_element_blocks(s, "script");
    let b = strip_element_blocks(a.as_str(), "style");
    proof {
        reveal_strlit("<");
        reveal_strlit("</");
        reveal_strlit("script");
        reveal_strlit("style");
        reveal_strlit("<script");
        reveal_strlit("</script");
        reveal_strlit("<style");
        reveal_strlit("</style");
        assert("<"@ + "script"@ =~= "<script"@);
        assert("</"@ + "script"@ =~= "</script"@);
        assert("<"@ + "style"@ =~= "<style"@);
        assert("</"@ + "style"@ =~= "</style"@);
    }
    b
}

fn blocks_and_comments_fix_exec(s: &str) -> (r: String)
    ensures
        r@ == blocks_and_comments_fix(s@),
{
    let mut x = s.to_owned();
    loop
        invariant_except_break
            blocks_and_comments_fix(x@) == blocks_and_comments_fix(s@),
        ensures
            x@ == blocks_and_comments_fix(s@),
        decreases x@.len(),
    {
        let a = strip_script_style_exec(x.as_str());
        let t = strip_html_comments(a.as_str());
        if t.unicode_len() < x.unicode_len() {
            x = t;
        } else {
            x = t;
            break;
        }
    }
    x
}

fn script_style_fix_exec(s: &str) -> (r: String)
    ensures
        r@ == script_style_fix(s@),
{
    let mut x = s.to_owned();
    loop
        invariant_except_break
            script_style_fix(x@) == script_style_fix(s@),
        ensures
            x@ == script_style_fix(s@),
        decreases x@.len(),
    {
        let t = strip_script_style_exec(x.as_str());
        if t.unicode_len() < x.unicode_len() {
            x = t;
        } else {
            x = t;
            break;
        }
    }
    x
}

/// Strips `<script>`/`<style>` blocks and HTML comments (repeating until
/// none is left), `on*` event attributes and script/data URL values inside
/// tags, keeping benign markup; no script or style element is left.
pub fn sanitize_html_content(input: &str) -> (r: String)
    ensures
        r@ == spec_sanitize(input@),
        !has_element(r@, "<script"@),
        !has_element(r@, "<style"@),
{
    let c = blocks_and_comments_fix_exec(input);
    let d = strip_tag_attributes(c.as_str());
    let r = script_style_fix_exec(d.as_str());
    proof {
        law_no_script_or_style_left(input@);
    }
    r
}

/// HTML above 10 MB.
pub const HTML_TOO_LARGE_MSG: &'static str = "HTML content exceeds maximum size limit (10MB)";

/// Validates and cleans a `description_html` value: empty is kept as is;
/// more than 10 MB (UTF-8 bytes) is refused; otherwise the cleaned HTML.
pub fn clean_description_html(raw: &str) -> (r: Result<String, String>)
    ensures
        raw@.len() == 0 ==> (r matches Ok(v) && v@ == raw@),
        raw@.len() != 0 && raw.len() > MAX_CONTENT_BYTES ==> (r matches Err(e) && e@
            == HTML_TOO_LARGE_MSG@),
        raw@.len() != 0 && raw.len() <= MAX_CONTENT_BYTES ==> (r matches Ok(v) && v@
            == spec_sanitize(raw@)),
        r matches Ok(v) ==> !has_element(v@, "<script"@) && !has_element(v@, "<style"@),
{
    if raw.is_empty() {
        proof {
            assert(raw@.len() == 0);
            reveal_strlit("<script");
            reveal_strlit("<style");
            assert(!has_element(raw@, "<script"@));
            assert(!has_element(raw@, "<style"@));
        }
                return Ok(raw.to_owned());
    }
    if raw.len() > MAX_CONTENT_BYTES {
        return Err(HTML_TOO_LARGE_MSG.to_owned());
    }
    Ok(sanitize_html_content(raw))
}

/// Characters left outside `<...>` after processing `s` left to right,
/// and whether `s` ends inside a tag.
pub open spec fn strip_tags_state(s: Seq<char>) -> (Seq<char>, bool)
    decreases s.len(),
{
    if s.len() == 0 {
        (Seq::empty(), false)
    } else {
        let (o, in_tag) = strip_tags_state(s.drop_last());
        let c = s.last();
        if c == '<' {
            (o, true)
        } else if c == '>' {
            (o, false)
        } else if !in_tag {
            (o.push(c), in_tag)
        } else {
            (o, in_tag)
        }
    }
}

/// Plain text of an HTML fragment: every character outside `<...>`;
/// the result holds neither `<` nor `>`.
pub fn strip_tags_text(html: &str) -> (r: String)
    ensures
        r@ == strip_tags_state(html@).0,
        forall|i: int| 0 <= i < r@.len() ==> r@[i] != '<' && r@[i] != '>',
{
    let v = chars_of(html);
    let mut out: Vec<char> = Vec::new();
    let mut in_tag = false;
    let mut i: usize = 0;
    while i < v.len()
        invariant
            i <= v@.len(),
            v@ == html@,
            (out@, in_tag) == strip_tags_state(v@.take(i as int)),
            forall|k: int| 0 <= k < out@.len() ==> out@[k] != '<' && out@[k] != '>',
        decreases v.len() - i,
    {
        let c = v[i];
        proof {
            assert(v@.take(i + 1).drop_last() =~= v@.take(i as int));
            assert(v@.take(i + 1).last() == c);
        }
        if c == '<' {
            in_tag = true;
        } else if c == '>' {
            in_tag = false;
        } else if !in_tag {
            out.push(c);
        }
        i = i + 1;
    }
    proof {
        assert(v@.take(v@.len() as int) =~= v@);
    }
    string_of(&out)
}


// ---------------------------------------------------------------------------
// Laws
// ---------------------------------------------------------------------------

/// The owner of a page, while a member, may do anything, even on a
/// private page.
pub proof fn law_member_owner_always_allowed(is_private: bool, method: Seq<char>, role: i16)
    ensures
        spec_page_perm(true, is_private, method, Some(role)) == PagePerm::Allow,
{
}

/// Without an active membership every request is denied, the owner's too.
pub proof fn law_non_member_always_denied(is_owner: bool, is_private: bool, method: Seq<char>)
    ensures
        spec_page_perm(is_owner, is_private, method, None) == PagePerm::Deny,
{
}

/// A private page denies everyone but its owner.
pub proof fn law_private_page_denies_others(method: Seq<char>, role: Option<i16>)
    ensures
        spec_page_perm(false, true, method, role) == PagePerm::Deny,
{
}

/// The page ordering column is always one of the four allowed columns.
pub proof fn law_page_order_allowlisted(raw: Seq<char>)
    ensures
        spec_page_order(raw).0 == "p.created_at"@ || spec_page_order(raw).0 == "p.updated_at"@
            || spec_page_order(raw).0 == "p.name"@ || spec_page_order(raw).0 == "p.sort_order"@,
{
}

proof fn lemma_no_lt_no_match(s: Seq<char>, p: Seq<char>)
    requires
        p.len() > 0,
        p[0] == '<',
        forall|i: int| 0 <= i < s.len() ==> s[i] != '<',
    ensures
        find_ci_from(s, p, 0) is None,
        find_from(s, p, 0) is None,
{
    lemma_find_ci_from_spec(s, p, 0);
    lemma_find_from_spec(s, p, 0);
    if let Some(i) = find_ci_from(s, p, 0) {
        let c = s[i + 0];
        assert(lower_code(c) == p[0] as u32);
        assert(c as u32 == 60);
        vstd::utf8::char_u32_cast(c, c as u32);
        vstd::utf8::char_u32_cast('<', '<' as u32);
        assert(c == '<');
    }
    if let Some(i) = find_from(s, p, 0) {
        assert(s[i + 0] == p[0]);
    }
}

/// Text holding no `<` passes the HTML cleaner unchanged.
pub proof fn law_plain_text_kept_by_sanitizer(s: Seq<char>)
    requires
        forall|i: int| 0 <= i < s.len() ==> s[i] != '<',
    ensures
        spec_sanitize(s) == s,
{
    reveal_strlit("<script");
    reveal_strlit("<style");
    reveal_strlit("<!--");
    lemma_no_lt_no_match(s, "<script"@);
    lemma_no_lt_no_match(s, "<style"@);
    lemma_no_lt_no_match(s, "<!--"@);
    assert(s.subrange(0, s.len() as int) =~= s);
    assert(strip_blocks_from(s, "<script"@, "</script"@, 0) == s);
    assert(strip_blocks_from(s, "<style"@, "</style"@, 0) == s);
    assert(strip_script_style(s) == s);
    assert(strip_comments_from(s, 0) == s);
    assert(blocks_and_comments_fix(s) == s);
    lemma_find_char_from_spec(s, '<', 0);
    if s.len() == 0 {
        assert(strip_attrs_from(s, 0) =~= s);
    } else {
        assert(find_char_from(s, '<', 0) is None);
    }
    assert(strip_attrs_from(s, 0) == s);
    assert(script_style_fix(s) == s);
}

/// A block pass never lengthens the text; it leaves it unchanged when no
/// element starts at or after `rest`, and shortens it when one does.
proof fn lemma_block_pass_len(s: Seq<char>, open: Seq<char>, close: Seq<char>, rest: int)
    requires
        0 <= rest <= s.len(),
        open.len() > 0,
    ensures
        strip_blocks_from(s, open, close, rest).len() <= s.len() - rest,
        (forall|i: int| rest <= i ==> !(#[trigger] matches_ci_at(s, open, i) && after_tag_ok(s, i + open.len())))
            ==> strip_blocks_from(s, open, close, rest) == s.subrange(rest, s.len() as int),
        (exists|i: int| rest <= i && #[trigger] matches_ci_at(s, open, i) && after_tag_ok(s, i + open.len()))
            ==> strip_blocks_from(s, open, close, rest).len() < s.len() - rest,
    decreases s.len() - rest,
{
    lemma_find_ci_from_spec(s, open, rest);
    match find_ci_from(s, open, rest) {
        None => {},
        Some(a) => {
            let e = a + open.len();
            if !after_tag_ok(s, e) {
                lemma_block_pass_len(s, open, close, a + 1);
                let tail = strip_blocks_from(s, open, close, a + 1);
                if forall|i: int| rest <= i ==> !(#[trigger] matches_ci_at(s, open, i) && after_tag_ok(s, i + open.len())) {
                    assert(s.subrange(rest, a + 1) + s.subrange(a + 1, s.len() as int) =~= s.subrange(rest, s.len() as int));
                }
                if exists|i: int| rest <= i && #[trigger] matches_ci_at(s, open, i) && after_tag_ok(s, i + open.len()) {
                    let i = choose|i: int| rest <= i && #[trigger] matches_ci_at(s, open, i) && after_tag_ok(s, i + open.len());
                    assert(i != a);
                    assert(a + 1 <= i);
                }
            } else {
                assert(matches_ci_at(s, open, a) && after_tag_ok(s, a + open.len()));
                lemma_close_gt(s, e);
                lemma_find_ci_from_spec(s, close, close_gt(s, e));
                match find_ci_from(s, close, close_gt(s, e)) {
                    None => {},
                    Some(c) => {
                        lemma_close_gt(s, c);
                        lemma_block_pass_len(s, open, close, close_gt(s, c));
                    },
                }
            }
        },
    }
}

/// When a script-and-style pass shortens nothing, the text holds no
/// script or style element and the pass leaves it unchanged.
proof fn lemma_script_style_stable(s: Seq<char>)
    requires
        strip_script_style(s).len() >= s.len(),
    ensures
        strip_script_style(s) == s,
        !has_element(s, "<script"@),
        !has_element(s, "<style"@),
{
    reveal_strlit("<script");
    reveal_strlit("<style");
    assert(s.subrange(0, s.len() as int) =~= s);
    lemma_block_pass_len(s, "<script"@, "</script"@, 0);
    let a = strip_blocks_from(s, "<script"@, "</script"@, 0);
    lemma_block_pass_len(a, "<style"@, "</style"@, 0);
    assert(a.subrange(0, a.len() as int) =~= a);
    if has_element(s, "<script"@) {
        let i = choose|i: int| #[trigger] matches_ci_at(s, "<script"@, i) && after_tag_ok(s, i + "<script"@.len());
        assert(0 <= i);
    }
    assert(a == s);
    if has_element(s, "<style"@) {
        let i = choose|i: int| #[trigger] matches_ci_at(s, "<style"@, i) && after_tag_ok(s, i + "<style"@.len());
        assert(0 <= i);
    }
}

proof fn lemma_script_style_fix_clean(s: Seq<char>)
    ensures
        !has_element(script_style_fix(s), "<script"@),
        !has_element(script_style_fix(s), "<style"@),
    decreases s.len(),
{
    let t = strip_script_style(s);
    if t.len() < s.len() {
        lemma_script_style_fix_clean(t);
    } else {
        lemma_script_style_stable(s);
    }
}

/// No script or style element is left in the cleaned HTML, whatever the
/// input: no `<script` or `<style` (in any ASCII case) followed by `>`,
/// `/`, whitespace or the end.
pub proof fn law_no_script_or_style_left(s: Seq<char>)
    ensures
        !has_element(spec_sanitize(s), "<script"@),
        !has_element(spec_sanitize(s), "<style"@),
{
    lemma_script_style_fix_clean(strip_attrs_from(blocks_and_comments_fix(s), 0));
}


proof fn lemma_no_marker_byte(d: Seq<u8>, p: Seq<char>, j: int)
    requires
        0 <= j < p.len(),
        p[j] == '<' || p[j] == ':',
        forall|i: int| 0 <= i < d.len() ==> d[i] != 60u8 && d[i] != 58u8,
    ensures
        !bytes_contains_ci(d, p),
{
    if bytes_contains_ci(d, p) {
        let i = choose|i: int| bytes_match_ci_at(d, p, i);
        let b = d[i + j];
        assert(lower_byte(b) as u32 == p[j] as u32);
    }
}

/// Binary data of 4 bytes up to 10 MB whose first 200 bytes hold no `<`
/// and no `:` is accepted: every refused marker carries one of them.
pub proof fn law_binary_without_markup_accepted(d: Seq<u8>)
    requires
        4 <= d.len() <= MAX_CONTENT_BYTES,
        forall|i: int| 0 <= i < d.len() && i < 200 ==> d[i] != 60u8 && d[i] != 58u8,
    ensures
        binary_error(d) is None,
{
    let head = d.subrange(0, if d.len() < 200 { d.len() as int } else { 200 });
    reveal_strlit("<html");
    reveal_strlit("<!doctype");
    reveal_strlit("<script");
    reveal_strlit("javascript:");
    reveal_strlit("data:");
    reveal_strlit("<iframe");
    lemma_no_marker_byte(head, "<html"@, 0);
    lemma_no_marker_byte(head, "<!doctype"@, 0);
    lemma_no_marker_byte(head, "<script"@, 0);
    lemma_no_marker_byte(head, "javascript:"@, 10);
    lemma_no_marker_byte(head, "data:"@, 4);
    lemma_no_marker_byte(head, "<iframe"@, 0);
}


/// The cleaner keeps an attribute exactly as written unless it is an
/// event handler (`on...`), or an `href`/`src` whose trimmed value starts,
/// in any ASCII case, with `javascript:`, `data:` or `vbscript:`; a kept
/// `href`/`src` is changed only to `="#"`.
pub proof fn law_only_script_urls_neutralised(t: Seq<char>, ns: int)
    ensures
        ({
            let name = t.subrange(ns, scan(t, ns, 2, ' '));
            let (raw, val, next) = attr_parts(t, ns);
            let v = trim(val);
            let script_url = matches_ci_at(v, "javascript:"@, 0) || matches_ci_at(v, "data:"@, 0)
                || matches_ci_at(v, "vbscript:"@, 0);
            &&& attr_step(t, ns).1 == next
            &&& !is_event_attr(name) && !(is_url_attr(name) && script_url) ==> attr_step(t, ns).0
                == Some(raw)
            &&& !is_event_attr(name) && is_url_attr(name) && script_url ==> attr_step(t, ns).0
                == Some(name + "=\"#\""@)
            &&& is_event_attr(name) ==> attr_step(t, ns).0 is None
        }),
{
}


proof fn lemma_scan_to(t: Seq<char>, i: int, j: int, kind: u8, q: char)
    requires
        0 <= i <= j <= t.len(),
        forall|k: int| i <= k < j ==> !stops(kind, q, #[trigger] t[k]),
        j == t.len() || stops(kind, q, t[j]),
    ensures
        scan(t, i, kind, q) == j,
    decreases j - i,
{
    if i < j {
        lemma_scan_to(t, i + 1, j, kind, q);
    }
}

proof fn lemma_no_element(s: Seq<char>, p: Seq<char>)
    requires
        p.len() > 1,
        p[0] == '<',
        forall|i: int|
            0 <= i < s.len() && #[trigger] s[i] == '<' ==> i + 1 < s.len() && s[i + 1] != p[1]
                && lower_code(s[i + 1]) != p[1] as u32,
    ensures
        find_ci_from(s, p, 0) is None,
        find_from(s, p, 0) is None,
{
    lemma_find_ci_from_spec(s, p, 0);
    lemma_find_from_spec(s, p, 0);
    if let Some(i) = find_ci_from(s, p, 0) {
        let c = s[i + 0];
        assert(lower_code(c) == p[0] as u32);
        assert(c as u32 == 60);
        vstd::utf8::char_u32_cast(c, c as u32);
        vstd::utf8::char_u32_cast('<', '<' as u32);
        assert(c == '<');
        assert(lower_code(s[i + 1]) == p[1] as u32);
    }
    if let Some(i) = find_from(s, p, 0) {
        assert(s[i + 0] == p[0]);
        assert(s[i + 1] == p[1]);
    }
}

/// Text in which no `<script`, `<style` or `<!--` can start passes the
/// block and comment passes unchanged.
proof fn lemma_blocks_keep(s: Seq<char>)
    requires
        forall|i: int|
            0 <= i < s.len() && #[trigger] s[i] == '<' ==> i + 1 < s.len() && s[i + 1] == 'a',
    ensures
        blocks_and_comments_fix(s) == s,
        script_style_fix(s) == s,
{
    reveal_strlit("<script");
    reveal_strlit("<style");
    reveal_strlit("<!--");
    lemma_no_element(s, "<script"@);
    lemma_no_element(s, "<style"@);
    lemma_no_element(s, "<!--"@);
    assert(s.subrange(0, s.len() as int) =~= s);
    assert(strip_blocks_from(s, "<script"@, "</script"@, 0) == s);
    assert(strip_blocks_from(s, "<style"@, "</style"@, 0) == s);
    assert(strip_script_style(s) == s);
    assert(strip_comments_from(s, 0) == s);
}

/// A link whose `href` does not hold a script or data URL passes the HTML
/// cleaner unchanged, with any plain text after it: for every value `v`
/// (quoted, holding no `"`, `<` or `>`) whose trimmed text does not start,
/// in any ASCII case, with `javascript:`, `data:` or `vbscript:`, such as
/// any `http://` or `https://` URL.
pub proof fn law_plain_link_kept_by_sanitizer(v: Seq<char>, x: Seq<char>)
    requires
        forall|i: int| 0 <= i < v.len() ==> v[i] != '"' && v[i] != '<' && v[i] != '>',
        forall|i: int| 0 <= i < x.len() ==> x[i] != '<',
        !matches_ci_at(trim(v), "javascript:"@, 0),
        !matches_ci_at(trim(v), "data:"@, 0),
        !matches_ci_at(trim(v), "vbscript:"@, 0),
    ensures
        spec_sanitize("<a href=\""@ + v + "\">"@ + x) == "<a href=\""@ + v + "\">"@ + x,
{
    reveal_strlit("<a href=\"");
    reveal_strlit("\">");
    reveal_strlit("href");
    reveal_strlit("src");
    reveal_strlit("/>");
    reveal_strlit(">");
    reveal_strlit(" ");
    let m: int = v.len() as int;
    let n: int = m + 11;
    let t = "<a href=\""@ + v + "\">"@;
    let s = t + x;
    assert(t.len() == n);
    assert forall|i: int| 0 <= i < v.len() implies t[9 + i] == v[i] by {}
    assert(t[9 + m] == '"');
    assert(t[10 + m] == '>');
    assert forall|i: int| 0 <= i < n implies s[i] == t[i] by {}
    assert forall|i: int| 0 <= i < x.len() implies s[n + i] == x[i] by {}
    // The only `<` is the first character.
    assert forall|i: int| 0 <= i < s.len() && #[trigger] s[i] == '<' implies i + 1 < s.len() && s[i
        + 1] == 'a' by {
        if i >= n {
            assert(s[n + (i - n)] == x[i - n]);
        } else if 9 <= i < 9 + m {
            assert(t[9 + (i - 9)] == v[i - 9]);
        }
    }
    lemma_blocks_keep(s);
    // The opening tag runs to the `>` after the value.
    lemma_find_char_from_spec(s, '<', 0);
    lemma_find_char_from_spec(s, '>', 0);
    assert forall|j: int| 0 <= j < n - 1 implies s[j] != '>' by {
        if 9 <= j < 9 + m {
            assert(t[9 + (j - 9)] == v[j - 9]);
        }
    }
    assert(find_char_from(s, '>', 0) == Some(n - 1));
    assert(close_gt(s, 0) == n);
    assert(s.subrange(0, n) =~= t);
    // Text after the tag.
    if n < s.len() {
        lemma_find_char_from_spec(s, '<', n);
        assert(find_char_from(s, '<', n) is None) by {
            if let Some(k) = find_char_from(s, '<', n) {
                assert(s[n + (k - n)] == x[k - n]);
            }
        }
        assert(s.subrange(n, s.len() as int) =~= x);
    } else {
        assert(x.len() == 0);
    }
    assert(strip_attrs_from(s, n) =~= x);
    // The tag is rebuilt as written.
    lemma_scan_to(t, 1, 2, 0, ' ');
    lemma_scan_to(t, 2, 3, 1, ' ');
    lemma_scan_to(t, 3, 7, 2, ' ');
    lemma_scan_to(t, 7, 7, 3, ' ');
    lemma_scan_to(t, 8, 8, 3, ' ');
    assert forall|k: int| 9 <= k < 9 + m implies !stops(4, '"', #[trigger] t[k]) by {
        assert(t[9 + (k - 9)] == v[k - 9]);
    }
    lemma_scan_to(t, 9, 9 + m, 4, '"');
    lemma_scan_to(t, 10 + m, 10 + m, 1, ' ');
    let name = t.subrange(3, 7);
    assert(name =~= "href"@);
    assert(t.subrange(9, 9 + m) =~= v);
    let raw = name + seq!['=', '"'] + v + seq!['"'];
    assert(attr_parts(t, 3) == (raw, v, 10 + m));
    assert(!is_event_attr(name));
    assert(is_url_attr(name));
    assert(!dangerous_url(trim(v)));
    assert(attr_step(t, 3) == (Some(raw), 10 + m));
    assert(attrs_from(t, 10 + m) =~= Seq::<Seq<char>>::empty());
    assert(attrs_from(t, 2) =~= seq![raw]);
    let kept = seq![t.subrange(0, 2)] + attrs_from(t, 2);
    assert(kept =~= seq![t.subrange(0, 2), raw]);
    assert(kept.drop_last() =~= seq![t.subrange(0, 2)]);
    assert(join_space(kept.drop_last()) == t.subrange(0, 2));
    assert(kept.last() == raw);
    let j = join_space(kept);
    assert(j == t.subrange(0, 2) + seq![' '] + raw);
    assert(trim_end(t) == t);
    assert(!ends_with(t, "/>"@)) by {
        if ends_with(t, "/>"@) {
            assert(t[(n - 2) + 0] == "/>"@[0]);
        }
    }
    assert(j + ">"@ =~= t);
    assert(spec_clean_tag(t) == t);
    assert(strip_attrs_from(s, 0) =~= s);
}

} // verus!

//! Workspace preference rules: role gate, sidebar pins, quick-link URL
//! normalisation and validation, the workspace-slug check, the
//! recent-visit filter, the Unsplash URL and the navigation-preference
//! choice check.
use vstd::prelude::*;

use crate::routes::project::FORBIDDEN_MSG;
use crate::text::{
    after_last_char, after_last_char_exec, before_char, before_char_exec, chars_of, has_ws,
    has_ws_exec, push_range, starts_with, starts_with_exec, str_eq, str_in, str_listed, string_of,
    trim, trim_chars,
};

verus! {

broadcast use vstd::string::group_string_axioms;

/// Quick-link patch miss (`detail` key).
pub const QUICK_LINK_NOT_FOUND_DETAIL: &'static str = "Quick link not found.";

/// Quick-link detail miss (`error` key).
pub const QUICK_LINK_NOT_FOUND_ERROR: &'static str = "Quick link not found.";

/// Home-preference patch miss (served with 400).
pub const HOME_PREF_NOT_FOUND_MSG: &'static str = "Preference not found";

/// Slug check without a slug.
pub const SLUG_REQUIRED_MSG: &'static str = "Workspace Slug is required";

/// Sidebar patch acknowledgement.
pub const SIDEBAR_UPDATED_MSG: &'static str = "Successfully updated";

/// Malformed quick-link URL.
pub const INVALID_URL_MSG: &'static str = "Invalid URL format.";

/// Duplicate quick-link URL.
pub const DUP_URL_MSG: &'static str = "URL already exists for this workspace and owner";

/// Workspace slugs that can never be taken (duplicates as listed).
pub const RESTRICTED_WORKSPACE_SLUGS: [&'static str; 62] = [
    "404",
    "accounts",
    "api",
    "create-workspace",
    "god-mode",
    "installations",
    "invitations",
    "onboarding",
    "profile",
    "spaces",
    "workspace-invitations",
    "password",
    "flags",
    "monitor",
    "monitoring",
    "ingest",
    "plane-pro",
    "plane-ultimate",
    "enterprise",
    "plane-enterprise",
    "disco",
    "silo",
    "chat",
    "calendar",
    "drive",
    "channels",
    "upgrade",
    "billing",
    "sign-in",
    "sign-up",
    "signin",
    "signup",
    "config",
    "live",
    "admin",
    "m",
    "import",
    "importers",
    "integrations",
    "integration",
    "configuration",
    "initiatives",
    "initiative",
    "workflow",
    "workflows",
    "epics",
    "epic",
    "story",
    "mobile",
    "dashboard",
    "desktop",
    "onload",
    "real-time",
    "one",
    "pages",
    "business",
    "pro",
    "settings",
    "license",
    "licenses",
    "instances",
    "instance",
];

/// Sidebar keys in declaration order.
pub const SIDEBAR_KEYS: [&'static str; 7] = [
    "views",
    "active_cycles",
    "analytics",
    "drafts",
    "your_work",
    "archives",
    "stickies",
];

/// Home widget keys served (tutorial and what's-new excluded).
pub const HOME_KEYS: [&'static str; 3] = ["quick_links", "recents", "my_stickies"];

/// Entities a recent visit may name.
pub const RECENT_ENTITIES: [&'static str; 3] = ["issue", "page", "project"];

/// Workspace role admin (20), member (15) or guest (5).
pub fn guard_amg(role: Option<i16>) -> (r: Result<(), String>)
    ensures
        r is Ok <==> (role == Some(20i16) || role == Some(15i16) || role == Some(5i16)),
        r matches Err(e) ==> e@ == FORBIDDEN_MSG@,
{
    match role {
        Some(20) | Some(15) | Some(5) => Ok(()),
        _ => Err(FORBIDDEN_MSG.to_owned()),
    }
}

/// Sidebar keys pinned by default: drafts, your_work, stickies.
pub fn sidebar_pinned(key: &str) -> (r: bool)
    ensures
        r == (key@ == "drafts"@ || key@ == "your_work"@ || key@ == "stickies"@),
{
    str_eq(key, "drafts") || str_eq(key, "your_work") || str_eq(key, "stickies")
}

/// Trimmed URL with `http://` prepended unless it has an http(s) scheme.
pub open spec fn spec_normalize_quick_link(url: Seq<char>) -> Seq<char> {
    let t = trim(url);
    if starts_with(t, "http://"@) || starts_with(t, "https://"@) {
        t
    } else {
        "http://"@ + t
    }
}

/// Prepends `http://` when the scheme is missing.
pub fn normalize_link_url(url: &str) -> (r: String)
    ensures
        r@ == spec_normalize_quick_link(url@),
{
    let v = chars_of(url);
    let t = trim_chars(&v);
    let http = chars_of("http://");
    let https = chars_of("https://");
    if starts_with_exec(&t, &http) || starts_with_exec(&t, &https) {
        string_of(&t)
    } else {
        let mut r = String::from_str("http://");
        let ts = string_of(&t);
        r.append(ts.as_str());
        r
    }
}

/// The URL after its http(s) scheme.
pub open spec fn quick_link_rest(u: Seq<char>) -> Option<Seq<char>> {
    if starts_with(u, "http://"@) {
        Some(u.subrange(7, u.len() as int))
    } else if starts_with(u, "https://"@) {
        Some(u.subrange(8, u.len() as int))
    } else {
        None
    }
}

/// Host of the rest of a URL: before the first `/`, after the last `@`,
/// before the first `:`.
pub open spec fn quick_link_host(rest: Seq<char>) -> Seq<char> {
    before_char(after_last_char(before_char(rest, '/'), '@'), ':')
}

/// An http(s) URL with a non-empty host and no whitespace anywhere.
pub open spec fn spec_valid_quick_link(u: Seq<char>) -> bool {
    match quick_link_rest(u) {
        None => false,
        Some(rest) => quick_link_host(rest).len() > 0 && !has_ws(u),
    }
}

/// Validates a quick-link URL.
pub fn validate_link_url(url: &str) -> (r: Result<(), String>)
    ensures
        r is Ok <==> spec_valid_quick_link(url@),
        r matches Err(e) ==> e@ == INVALID_URL_MSG@,
{
    let u = chars_of(url);
    let http = chars_of("http://");
    let https = chars_of("https://");
    let start: usize;
    if starts_with_exec(&u, &http) {
        proof {
            reveal_strlit("http://");
        }
        start = 7;
    } else if starts_with_exec(&u, &https) {
        proof {
            reveal_strlit("https://");
        }
        start = 8;
    } else {
        return Err(INVALID_URL_MSG.to_owned());
    }
    let mut rest: Vec<char> = Vec::new();
    push_range(&mut rest, &u, start, u.len());
    assert(quick_link_rest(u@) == Some(rest@));
    let h1 = before_char_exec(&rest, '/');
    let h2 = after_last_char_exec(&h1, '@');
    let host = before_char_exec(&h2, ':');
    if host.len() == 0 || has_ws_exec(&u) {
        return Err(INVALID_URL_MSG.to_owned());
    }
    Ok(())
}

/// Query of the workspace-slug check.
#[derive(Debug, Clone, Default)]
pub struct SlugCheckQuery {
    pub slug: Option<String>,
}

/// The slug check needs a slug that is present and not exactly empty
/// (whitespace passes).
pub fn guard_slug_present(slug: Option<&str>) -> (r: Result<String, String>)
    ensures
        match slug {
            Some(s) => if s@.len() > 0 {
                r matches Ok(v) && v@ == s@
            } else {
                r matches Err(e) && e@ == SLUG_REQUIRED_MSG@
            },
            None => r matches Err(e) && e@ == SLUG_REQUIRED_MSG@,
        },
{
    match slug {
        Some(s) => {
            if !s.is_empty() {
                Ok(s.to_owned())
            } else {
                Err(SLUG_REQUIRED_MSG.to_owned())
            }
        },
        None => Err(SLUG_REQUIRED_MSG.to_owned()),
    }
}

/// A slug is available unless it exists (case-insensitively, as looked
/// up) or is restricted (exact match).
pub fn slug_available(exists_iexact: bool, slug: &str) -> (r: bool)
    ensures
        r == !(exists_iexact || str_listed(RESTRICTED_WORKSPACE_SLUGS@, slug@)),
{
    let list: &[&str] = &RESTRICTED_WORKSPACE_SLUGS;
    assert(list@ == RESTRICTED_WORKSPACE_SLUGS@);
    !(exists_iexact || str_in(list, slug))
}

/// Query of the recent-visit list.
#[derive(Debug, Clone, Default)]
pub struct RecentQuery {
    pub entity_name: Option<String>,
}

/// A recent-visit row is shown when it matches the `?entity_name=` filter
/// (if any) and its entity is allow-listed.
pub fn recent_row_visible(query: Option<&str>, row_entity: &str) -> (r: bool)
    ensures
        r == ((query is None || query->0@ == row_entity@) && str_listed(
            RECENT_ENTITIES@,
            row_entity@,
        )),
{
    if let Some(q) = query {
        if !str_eq(q, row_entity) {
            return false;
        }
    }
    let list: &[&str] = &RECENT_ENTITIES;
    assert(list@ == RECENT_ENTITIES@);
    str_in(list, row_entity)
}

/// Spec of `unsplash_url`.
pub open spec fn spec_unsplash_url(
    query: Option<Seq<char>>,
    page: Seq<char>,
    per_page: Seq<char>,
    key: Seq<char>,
) -> Seq<char> {
    match query {
        Some(q) if trim(q).len() > 0 => "https://api.unsplash.com/search/photos/?client_id="@ + key
            + "&query="@ + q + "&page="@ + page + "&per_page="@ + per_page,
        _ => "https://api.unsplash.com/photos/?client_id="@ + key + "&page="@ + page
            + "&per_page="@ + per_page,
    }
}

/// Query of the Unsplash search.
#[derive(Debug, Clone, Default)]
pub struct UnsplashQuery {
    pub query: Option<String>,
    pub page: Option<String>,
    pub per_page: Option<String>,
}

/// Unsplash request URL: the search endpoint for a non-blank query, else
/// the photo list; the real page number is sent.
pub fn unsplash_url(query: Option<&str>, page: &str, per_page: &str, key: &str) -> (r: String)
    ensures
        r@ == spec_unsplash_url(
            match query {
                Some(q) => Some(q@),
                None => None,
            },
            page@,
            per_page@,
            key@,
        ),
{
    let searching = match query {
        Some(q) => {
            let v = chars_of(q);
            trim_chars(&v).len() > 0
        },
        None => false,
    };
    if searching {
        let q = query.unwrap();
        let mut r = String::from_str("https://api.unsplash.com/search/photos/?client_id=");
        r.append(key);
        r.append("&query=");
        r.append(q);
        r.append("&page=");
        r.append(page);
        r.append("&per_page=");
        r.append(per_page);
        r
    } else {
        let mut r = String::from_str("https://api.unsplash.com/photos/?client_id=");
        r.append(key);
        r.append("&page=");
        r.append(page);
        r.append("&per_page=");
        r.append(per_page);
        r
    }
}


// ---------------------------------------------------------------------------
// Laws
// ---------------------------------------------------------------------------

/// A normalised quick-link URL always carries an http(s) scheme.
pub proof fn law_quick_link_has_scheme(url: Seq<char>)
    ensures
        starts_with(spec_normalize_quick_link(url), "http://"@) || starts_with(
            spec_normalize_quick_link(url),
            "https://"@,
        ),
{
    reveal_strlit("http://");
    let t = trim(url);
    let r = "http://"@ + t;
    if !(starts_with(t, "http://"@) || starts_with(t, "https://"@)) {
        assert forall|j: int| 0 <= j < "http://"@.len() implies #[trigger] r[0 + j]
            == "http://"@[j] by {
            assert(r[j] == "http://"@[j]);
        }
    }
}

/// Normalising a quick-link URL twice is normalising it once.
pub proof fn law_quick_link_normalize_idempotent(url: Seq<char>)
    ensures
        spec_normalize_quick_link(spec_normalize_quick_link(url)) == spec_normalize_quick_link(
            url,
        ),
{
    reveal_strlit("http://");
    reveal_strlit("https://");
    let t = trim(url);
    crate::text::lemma_trim_idempotent(url);
    law_quick_link_has_scheme(url);
    let r = spec_normalize_quick_link(url);
    if !(starts_with(t, "http://"@) || starts_with(t, "https://"@)) {
        crate::text::lemma_trim_start_shape(url);
        crate::text::lemma_trim_end_shape(crate::text::trim_start(url));
        crate::text::lemma_trim_start_shape(t);
        crate::text::lemma_trim_end_shape(t);
        assert(r == "http://"@ + t);
        assert(r[0] == 'h');
        if t.len() > 0 {
            assert(r.last() == t.last());
            assert(crate::text::trim_start(t) == t);
        }
        crate::text::lemma_trim_fixed(r);
    }
}


// ---------------------------------------------------------------------------
// Navigation preference
// ---------------------------------------------------------------------------

/// Navigation-control choices.
pub const NAV_CHOICES: [&'static str; 2] = ["ACCORDION", "TABBED"];

/// Spec of `nav_pref_error`.
pub open spec fn spec_nav_pref_error(text: Option<Seq<char>>, rendered: Seq<char>) -> Option<
    Seq<char>,
> {
    match text {
        Some(s) => if str_listed(NAV_CHOICES@, s) {
            None
        } else {
            Some(crate::routes::module::invalid_choice_msg(s))
        },
        None => Some(crate::routes::module::invalid_choice_msg(rendered)),
    }
}

/// The message for a navigation-control value that is not a choice:
/// `text` is the value when it is a string, `rendered` its JSON text
/// otherwise; `None` when the value is a choice.
pub fn nav_pref_error(text: Option<&str>, rendered: &str) -> (r: Option<String>)
    ensures
        match spec_nav_pref_error(
            match text {
                Some(s) => Some(s@),
                None => None,
            },
            rendered@,
        ) {
            Some(m) => r matches Some(x) && x@ == m,
            None => r is None,
        },
{
    let list: &[&str] = &NAV_CHOICES;
    assert(list@ == NAV_CHOICES@);
    match text {
        Some(s) => {
            if str_in(list, s) {
                None
            } else {
                Some(crate::routes::module::invalid_choice(s))
            }
        },
        None => Some(crate::routes::module::invalid_choice(rendered)),
    }
}

} // verus!

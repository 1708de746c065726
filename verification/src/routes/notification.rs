//! Notification rules: the list filters and ordering, and preference
//! patch validation.
use vstd::prelude::*;

use crate::text::{chars_of, split_char, split_pieces, str_eq, str_in, str_listed, string_of, views};

verus! {

broadcast use vstd::string::group_string_axioms;

/// Keys of the notification preferences.
pub const PREFERENCE_KEYS: [&'static str; 5] = [
    "property_change",
    "state_change",
    "comment",
    "mention",
    "issue_completed",
];

/// Mark-all-read body.
#[derive(Debug, Clone, Default)]
pub struct MarkAllRead {
    pub snoozed: bool,
    pub archived: bool,
    pub type_: Option<String>,
}

/// Message for a patch entry `(key, value is a boolean)`, if it is wrong.
pub open spec fn preference_entry_error(key: Seq<char>, is_bool: bool) -> Option<Seq<char>> {
    if !str_listed(PREFERENCE_KEYS@, key) {
        Some("unknown preference key: "@ + key)
    } else if !is_bool {
        Some("preference value must be boolean: "@ + key)
    } else {
        None
    }
}

/// The first wrong entry's message, in the order given.
pub open spec fn first_preference_error(entries: Seq<(Seq<char>, bool)>) -> Option<Seq<char>>
    decreases entries.len(),
{
    if entries.len() == 0 {
        None
    } else {
        match preference_entry_error(entries[0].0, entries[0].1) {
            Some(m) => Some(m),
            None => first_preference_error(entries.drop_first()),
        }
    }
}

/// Plain view of patch entries.
pub open spec fn entry_views(patch: Seq<(String, bool)>) -> Seq<(Seq<char>, bool)> {
    patch.map_values(|e: (String, bool)| (e.0@, e.1))
}

/// Validates a preference patch given as `(key, value is a boolean)`
/// entries in iteration order: the first unknown key or non-boolean value
/// is reported.
pub fn validate_preference_patch(patch: &[(String, bool)]) -> (r: Result<(), String>)
    ensures
        match first_preference_error(entry_views(patch@)) {
            Some(m) => r matches Err(e) && e@ == m,
            None => r is Ok,
        },
{
    let ghost ev = entry_views(patch@);
    let list: &[&str] = &PREFERENCE_KEYS;
    assert(list@ == PREFERENCE_KEYS@);
    let mut i: usize = 0;
    assert(ev.subrange(0, ev.len() as int) =~= ev);
    while i < patch.len()
        invariant
            i <= patch@.len(),
            ev == entry_views(patch@),
            list@ == PREFERENCE_KEYS@,
            first_preference_error(ev) == first_preference_error(
                ev.subrange(i as int, ev.len() as int),
            ),
        decreases patch.len() - i,
    {
        let key = patch[i].0.as_str();
        let is_bool = patch[i].1;
        proof {
            let sub = ev.subrange(i as int, ev.len() as int);
            assert(sub[0] == ev[i as int]);
            assert(sub.drop_first() =~= ev.subrange(i + 1, ev.len() as int));
        }
        if !str_in(list, key) {
            let mut m = String::from_str("unknown preference key: ");
            m.append(key);
            return Err(m);
        }
        if !is_bool {
            let mut m = String::from_str("preference value must be boolean: ");
            m.append(key);
            return Err(m);
        }
        i = i + 1;
    }
    Ok(())
}

/// Field errors of a preference patch: for each wrong entry, in the order
/// given, `(key, message)`; a non-boolean value gets the boolean-field
/// message.
pub open spec fn preference_errors(entries: Seq<(Seq<char>, bool)>) -> Seq<(Seq<char>, Seq<char>)>
    decreases entries.len(),
{
    if entries.len() == 0 {
        Seq::empty()
    } else {
        let (k, b) = entries[0];
        (if !str_listed(PREFERENCE_KEYS@, k) {
            seq![(k, "unknown preference key: "@ + k)]
        } else if !b {
            seq![(k, "Must be a valid boolean."@)]
        } else {
            Seq::empty()
        }) + preference_errors(entries.drop_first())
    }
}

/// Plain view of `(key, message)` pairs.
pub open spec fn pair_views(v: Seq<(String, String)>) -> Seq<(Seq<char>, Seq<char>)> {
    v.map_values(|e: (String, String)| (e.0@, e.1@))
}

/// The per-field errors of a preference patch (empty when it is valid).
pub fn preference_patch_errors(patch: &[(String, bool)]) -> (r: Vec<(String, String)>)
    ensures
        pair_views(r@) == preference_errors(entry_views(patch@)),
{
    let ghost ev = entry_views(patch@);
    let list: &[&str] = &PREFERENCE_KEYS;
    assert(list@ == PREFERENCE_KEYS@);
    let mut out: Vec<(String, String)> = Vec::new();
    let mut i: usize = 0;
    assert(ev.subrange(0, ev.len() as int) =~= ev);
    while i < patch.len()
        invariant
            i <= patch@.len(),
            ev == entry_views(patch@),
            list@ == PREFERENCE_KEYS@,
            preference_errors(ev) == pair_views(out@) + preference_errors(
                ev.subrange(i as int, ev.len() as int),
            ),
        decreases patch.len() - i,
    {
        let key = patch[i].0.as_str();
        let is_bool = patch[i].1;
        let ghost before = out@;
        proof {
            let sub = ev.subrange(i as int, ev.len() as int);
            assert(sub[0] == ev[i as int]);
            assert(sub.drop_first() =~= ev.subrange(i + 1, ev.len() as int));
        }
        if !str_in(list, key) {
            let mut m = String::from_str("unknown preference key: ");
            m.append(key);
            out.push((key.to_owned(), m));
        } else if !is_bool {
            out.push((key.to_owned(), "Must be a valid boolean.".to_owned()));
        }
        proof {
            let k = ev[i as int].0;
            let head: Seq<(Seq<char>, Seq<char>)> = if !str_listed(PREFERENCE_KEYS@, k) {
                seq![(k, "unknown preference key: "@ + k)]
            } else if !is_bool {
                seq![(k, "Must be a valid boolean."@)]
            } else {
                Seq::empty()
            };
            assert(pair_views(out@) =~= pair_views(before) + head);
        }
        i = i + 1;
    }
    proof {
        assert(ev.subrange(ev.len() as int, ev.len() as int) =~= Seq::<(Seq<char>, bool)>::empty());
        assert(pair_views(out@) + Seq::<(Seq<char>, Seq<char>)>::empty() =~= pair_views(out@));
    }
    out
}

// ---------------------------------------------------------------------------
// List filters and ordering
// ---------------------------------------------------------------------------

/// Fixed head of the list's `FROM ... WHERE` text.
pub const NOTIF_WHERE_HEAD: &'static str = "FROM notifications n JOIN workspaces w ON w.id = n.workspace_id \
         LEFT JOIN users tu ON tu.id = n.triggered_by_id \
         WHERE w.slug = $1 AND n.receiver_id = $2 AND n.entity_name = 'issue' \
         AND n.deleted_at IS NULL ";

/// Issues the receiver subscribed to without creating or being assigned.
pub const SUBSCRIBED_CLAUSE: &'static str = "n.entity_identifier IN (SELECT s.issue_id FROM issue_subscribers s \
             JOIN workspaces w2 ON w2.id = s.workspace_id WHERE w2.slug = $1 \
             AND s.subscriber_id = $2 \
             AND NOT EXISTS(SELECT 1 FROM issues ci WHERE ci.id = s.issue_id AND ci.created_by_id = $2) \
             AND NOT EXISTS(SELECT 1 FROM issue_assignees ia WHERE ia.issue_id = s.issue_id AND ia.assignee_id = $2))";

/// Issues assigned to the receiver.
pub const ASSIGNED_CLAUSE: &'static str = "n.entity_identifier IN (SELECT a.issue_id FROM issue_assignees a \
             JOIN workspaces w2 ON w2.id = a.workspace_id WHERE w2.slug = $1 \
             AND a.assignee_id = $2)";

/// Issues the receiver created.
pub const CREATED_CLAUSE: &'static str = "n.entity_identifier IN (SELECT i.id FROM issues i \
             JOIN workspaces w2 ON w2.id = i.workspace_id WHERE w2.slug = $1 \
             AND i.created_by_id = $2)";

/// The requested notification types: the comma-separated `?type=`, or
/// `all` when it is absent.
pub open spec fn notif_types(type_param: Option<Seq<char>>) -> Seq<Seq<char>> {
    match type_param {
        Some(t) => split_char(t, ','),
        None => seq!["all"@],
    }
}

/// `x` is one of `types`.
pub open spec fn has_type(types: Seq<Seq<char>>, x: Seq<char>) -> bool {
    exists|i: int| 0 <= i < types.len() && #[trigger] types[i] == x
}

/// Clauses joined by ` OR `.
pub open spec fn join_or(cs: Seq<Seq<char>>) -> Seq<char>
    decreases cs.len(),
{
    if cs.len() == 0 {
        Seq::empty()
    } else if cs.len() == 1 {
        cs[0]
    } else {
        join_or(cs.drop_last()) + " OR "@ + cs.last()
    }
}

/// The type clauses requested, in the fixed order subscribed, assigned,
/// created.
pub open spec fn type_clauses(types: Seq<Seq<char>>) -> Seq<Seq<char>> {
    (if has_type(types, "subscribed"@) {
        seq![SUBSCRIBED_CLAUSE@]
    } else {
        Seq::empty()
    }) + (if has_type(types, "assigned"@) {
        seq![ASSIGNED_CLAUSE@]
    } else {
        Seq::empty()
    }) + (if has_type(types, "created"@) {
        seq![CREATED_CLAUSE@]
    } else {
        Seq::empty()
    })
}

/// Snoozed filter: exactly `true` lists snoozed notifications.
pub open spec fn snoozed_filter(v: Option<Seq<char>>) -> Seq<char> {
    if v == Some("true"@) {
        "AND (n.snoozed_till < now() OR n.snoozed_till IS NOT NULL)"@
    } else {
        "AND (n.snoozed_till >= now() OR n.snoozed_till IS NULL)"@
    }
}

/// Archived filter: exactly `true` lists archived notifications.
pub open spec fn archived_filter(v: Option<Seq<char>>) -> Seq<char> {
    if v == Some("true"@) {
        "AND n.archived_at IS NOT NULL"@
    } else {
        "AND n.archived_at IS NULL"@
    }
}

/// Read filter: `true` read only, `false` unread only, else no filter.
pub open spec fn read_filter(v: Option<Seq<char>>) -> Seq<char> {
    if v == Some("true"@) {
        "AND n.read_at IS NOT NULL"@
    } else if v == Some("false"@) {
        "AND n.read_at IS NULL"@
    } else {
        ""@
    }
}

/// Mention filter: any non-empty value lists mentions only.
pub open spec fn mentioned_filter(v: Option<Seq<char>>) -> Seq<char> {
    if v is Some && v->0.len() > 0 {
        "AND n.sender ILIKE '%mentioned%'"@
    } else {
        "AND n.sender NOT ILIKE '%mentioned%'"@
    }
}

/// Type filter: the requested type clauses OR-ed, or nothing.
pub open spec fn type_filter(types: Seq<Seq<char>>) -> Seq<char> {
    let cs = type_clauses(types);
    if cs.len() == 0 {
        ""@
    } else {
        "AND ("@ + join_or(cs) + ")"@
    }
}

/// Spec of `notification_where`: `None` when a guest (role under 15) asks
/// for created issues, which lists nothing.
pub open spec fn spec_notification_where(
    snoozed: Option<Seq<char>>,
    archived: Option<Seq<char>>,
    read: Option<Seq<char>>,
    mentioned: Option<Seq<char>>,
    type_param: Option<Seq<char>>,
    role: i16,
) -> Option<Seq<char>> {
    let types = notif_types(type_param);
    if has_type(types, "created"@) && role < 15 {
        None
    } else {
        Some(
            NOTIF_WHERE_HEAD@ + snoozed_filter(snoozed) + " "@ + archived_filter(archived) + " "@
                + read_filter(read) + " "@ + mentioned_filter(mentioned) + " "@ + type_filter(
                types,
            ),
        )
    }
}

fn opt_is(v: Option<&str>, lit: &str) -> (r: bool)
    ensures
        r == (match v {
            Some(s) => s@ == lit@,
            None => false,
        }),
{
    match v {
        Some(s) => str_eq(s, lit),
        None => false,
    }
}

/// The view of an optional text.
pub open spec fn opt_view(v: Option<&str>) -> Option<Seq<char>> {
    match v {
        Some(s) => Some(s@),
        None => None,
    }
}

fn filters(
    snoozed: Option<&str>,
    archived: Option<&str>,
    read: Option<&str>,
    mentioned: Option<&str>,
) -> (r: (&'static str, &'static str, &'static str, &'static str))
    ensures
        r.0@ == snoozed_filter(opt_view(snoozed)),
        r.1@ == archived_filter(opt_view(archived)),
        r.2@ == read_filter(opt_view(read)),
        r.3@ == mentioned_filter(opt_view(mentioned)),
{
    proof {
        reveal_strlit("true");
        reveal_strlit("false");
    }
    let a = if opt_is(snoozed, "true") {
        "AND (n.snoozed_till < now() OR n.snoozed_till IS NOT NULL)"
    } else {
        "AND (n.snoozed_till >= now() OR n.snoozed_till IS NULL)"
    };
    let b = if opt_is(archived, "true") {
        "AND n.archived_at IS NOT NULL"
    } else {
        "AND n.archived_at IS NULL"
    };
    let c = if opt_is(read, "true") {
        "AND n.read_at IS NOT NULL"
    } else if opt_is(read, "false") {
        "AND n.read_at IS NULL"
    } else {
        ""
    };
    let d = match mentioned {
        Some(m) => if m.unicode_len() > 0 {
            "AND n.sender ILIKE '%mentioned%'"
        } else {
            "AND n.sender NOT ILIKE '%mentioned%'"
        },
        None => "AND n.sender NOT ILIKE '%mentioned%'",
    };
    (a, b, c, d)
}

fn pieces_have(pieces: &Vec<Vec<char>>, x: &str) -> (r: bool)
    ensures
        r == has_type(views(pieces@), x@),
{
    let xv = chars_of(x);
    let ghost vs = views(pieces@);
    let mut i: usize = 0;
    while i < pieces.len()
        invariant
            i <= pieces@.len(),
            vs == views(pieces@),
            xv@ == x@,
            forall|k: int| 0 <= k < i ==> vs[k] != x@,
        decreases pieces.len() - i,
    {
        assert(vs[i as int] == pieces@[i as int]@);
        if crate::text::chars_eq(&pieces[i], &xv) {
            return true;
        }
        i = i + 1;
    }
    false
}

fn join_clauses(cs: &Vec<&'static str>) -> (r: Vec<char>)
    ensures
        r@ == join_or(cs@.map_values(|c: &str| c@)),
{
    let ghost vs = cs@.map_values(|c: &str| c@);
    let mut out: Vec<char> = Vec::new();
    let mut i: usize = 0;
    while i < cs.len()
        invariant
            i <= cs@.len(),
            vs == cs@.map_values(|c: &str| c@),
            out@ == join_or(vs.take(i as int)),
        decreases cs.len() - i,
    {
        proof {
            let t = vs.take(i + 1);
            assert(t.drop_last() =~= vs.take(i as int));
            assert(t.last() == cs@[i as int]@);
            if i == 0 {
                assert(vs.take(0) =~= Seq::<Seq<char>>::empty());
            }
        }
        let ghost before = out@;
        if i > 0 {
            let sep = chars_of(" OR ");
            crate::text::push_all(&mut out, &sep);
        }
        let cv = chars_of(cs[i]);
        crate::text::push_all(&mut out, &cv);
        proof {
            let t = vs.take(i + 1);
            if i == 0 {
                assert(out@ =~= t[0]);
            } else {
                assert(out@ =~= join_or(t.drop_last()) + " OR "@ + t.last());
            }
        }
        i = i + 1;
    }
    proof {
        assert(vs.take(cs@.len() as int) =~= vs);
    }
    out
}

fn type_filter_exec(pieces: &Vec<Vec<char>>) -> (r: String)
    ensures
        r@ == type_filter(views(pieces@)),
{
    let ghost types = views(pieces@);
    let mut cs: Vec<&'static str> = Vec::new();
    if pieces_have(pieces, "subscribed") {
        cs.push(SUBSCRIBED_CLAUSE);
    }
    if pieces_have(pieces, "assigned") {
        cs.push(ASSIGNED_CLAUSE);
    }
    if pieces_have(pieces, "created") {
        cs.push(CREATED_CLAUSE);
    }
    assert(cs@.map_values(|c: &str| c@) =~= type_clauses(types));
    if cs.len() == 0 {
        proof {
            reveal_strlit("");
        }
        return String::from_str("");
    }
    let joined = string_of(&join_clauses(&cs));
    let mut r = String::from_str("AND (");
    r.append(joined.as_str());
    r.append(")");
    r
}

/// The `FROM ... WHERE` text of the notification list for the query's
/// `snoozed`, `archived`, `read`, `mentioned` and `type` values and the
/// receiver's workspace role; `None` when a guest asks for created issues
/// (the list is then empty).
pub fn notification_where(
    snoozed: Option<&str>,
    archived: Option<&str>,
    read: Option<&str>,
    mentioned: Option<&str>,
    type_param: Option<&str>,
    role: i16,
) -> (r: Option<String>)
    ensures
        match spec_notification_where(
            opt_view(snoozed),
            opt_view(archived),
            opt_view(read),
            opt_view(mentioned),
            opt_view(type_param),
            role,
        ) {
            Some(w) => r matches Some(x) && x@ == w,
            None => r is None,
        },
{
    let pieces: Vec<Vec<char>> = match type_param {
        Some(t) => {
            let tv = chars_of(t);
            split_pieces(&tv, ',')
        },
        None => {
            let mut v: Vec<Vec<char>> = Vec::new();
            v.push(chars_of("all"));
            proof {
                assert(views(v@) =~= seq!["all"@]);
            }
            v
        },
    };
    assert(views(pieces@) == notif_types(opt_view(type_param)));
    if pieces_have(&pieces, "created") && role < 15 {
        return None;
    }
    let (a, b, c, d) = filters(snoozed, archived, read, mentioned);
    let tf = type_filter_exec(&pieces);
    let mut w = String::from_str(NOTIF_WHERE_HEAD);
    w.append(a);
    w.append(" ");
    w.append(b);
    w.append(" ");
    w.append(c);
    w.append(" ");
    w.append(d);
    w.append(" ");
    w.append(tf.as_str());
    Some(w)
}

/// Spec of `notification_order`.
pub open spec fn spec_notification_order(order_by: Option<Seq<char>>) -> Seq<char> {
    let raw = match order_by {
        Some(o) => o,
        None => "-created_at"@,
    };
    let desc = raw.len() > 0 && raw[0] == '-';
    let bare = if desc {
        raw.drop_first()
    } else {
        raw
    };
    let known = bare == "created_at"@ || bare == "updated_at"@;
    let key = if known {
        bare
    } else {
        "created_at"@
    };
    let dir = if !known || desc {
        "DESC"@
    } else {
        "ASC"@
    };
    "n."@ + key + " "@ + dir + " NULLS LAST, n.created_at DESC"@
}

/// `ORDER BY` text of a paginated notification list: `created_at` or
/// `updated_at`, descending with a leading `-`; anything else orders by
/// `created_at` descending; ties by creation, newest first.
pub fn notification_order(order_by: Option<&str>) -> (r: String)
    ensures
        r@ == spec_notification_order(
            match order_by {
                Some(o) => Some(o@),
                None => None,
            },
        ),
{
    let raw = match order_by {
        Some(o) => chars_of(o),
        None => chars_of("-created_at"),
    };
    let desc = raw.len() > 0 && raw[0] == '-';
    let mut bare: Vec<char> = Vec::new();
    if desc {
        crate::text::push_range(&mut bare, &raw, 1, raw.len());
        assert(bare@ =~= raw@.drop_first());
    } else {
        crate::text::push_all(&mut bare, &raw);
        assert(bare@ =~= raw@);
    }
    let created = chars_of("created_at");
    let updated = chars_of("updated_at");
    let known = crate::text::chars_eq(&bare, &created) || crate::text::chars_eq(&bare, &updated);
    let mut out: Vec<char> = chars_of("n.");
    if known {
        crate::text::push_all(&mut out, &bare);
    } else {
        crate::text::push_all(&mut out, &created);
    }
    crate::text::push_all(&mut out, &chars_of(" "));
    if !known || desc {
        crate::text::push_all(&mut out, &chars_of("DESC"));
    } else {
        crate::text::push_all(&mut out, &chars_of("ASC"));
    }
    crate::text::push_all(&mut out, &chars_of(" NULLS LAST, n.created_at DESC"));
    string_of(&out)
}

/// A notification list is always ordered by creation or update time.
pub proof fn law_notification_order_allowlisted(order_by: Option<Seq<char>>)
    ensures
        ({
            let o = spec_notification_order(order_by);
            ||| o == "n.created_at ASC NULLS LAST, n.created_at DESC"@
            ||| o == "n.created_at DESC NULLS LAST, n.created_at DESC"@
            ||| o == "n.updated_at ASC NULLS LAST, n.created_at DESC"@
            ||| o == "n.updated_at DESC NULLS LAST, n.created_at DESC"@
        }),
{
    reveal_strlit("n.");
    reveal_strlit(" ");
    reveal_strlit("ASC");
    reveal_strlit("DESC");
    reveal_strlit(" NULLS LAST, n.created_at DESC");
    reveal_strlit("created_at");
    reveal_strlit("updated_at");
    reveal_strlit("n.created_at ASC NULLS LAST, n.created_at DESC");
    reveal_strlit("n.created_at DESC NULLS LAST, n.created_at DESC");
    reveal_strlit("n.updated_at ASC NULLS LAST, n.created_at DESC");
    reveal_strlit("n.updated_at DESC NULLS LAST, n.created_at DESC");
    let o = spec_notification_order(order_by);
    let raw = match order_by {
        Some(x) => x,
        None => "-created_at"@,
    };
    let desc = raw.len() > 0 && raw[0] == '-';
    let bare = if desc {
        raw.drop_first()
    } else {
        raw
    };
    let known = bare == "created_at"@ || bare == "updated_at"@;
    let key = if known {
        bare
    } else {
        "created_at"@
    };
    if key == "created_at"@ {
        if !known || desc {
            assert(o =~= "n.created_at DESC NULLS LAST, n.created_at DESC"@);
        } else {
            assert(o =~= "n.created_at ASC NULLS LAST, n.created_at DESC"@);
        }
    } else {
        assert(key == "updated_at"@);
        if !known || desc {
            assert(o =~= "n.updated_at DESC NULLS LAST, n.created_at DESC"@);
        } else {
            assert(o =~= "n.updated_at ASC NULLS LAST, n.created_at DESC"@);
        }
    }
}


/// `?read=true` lists read notifications and `?read=false` unread ones:
/// the two WHERE texts, and the one without `read`, agree but for one
/// clause, `AND n.read_at IS NOT NULL` for `true`, the complementary
/// `AND n.read_at IS NULL` for `false`, nothing without the parameter. Any
/// other `read` value filters nothing.
pub proof fn law_read_filter_selects_read_or_unread(
    snoozed: Option<Seq<char>>,
    archived: Option<Seq<char>>,
    mentioned: Option<Seq<char>>,
    type_param: Option<Seq<char>>,
    role: i16,
    other: Seq<char>,
)
    requires
        other != "true"@,
        other != "false"@,
    ensures
        ({
            let wt = spec_notification_where(snoozed, archived, Some("true"@), mentioned, type_param, role);
            let wf = spec_notification_where(snoozed, archived, Some("false"@), mentioned, type_param, role);
            let wn = spec_notification_where(snoozed, archived, None, mentioned, type_param, role);
            &&& wt is Some <==> wn is Some
            &&& wf is Some <==> wn is Some
            &&& wn is Some ==> exists|p: Seq<char>, q: Seq<char>|
                #![trigger p + q]
                wn->0 == p + q
                    && wt->0 == p + "AND n.read_at IS NOT NULL"@ + q
                    && wf->0 == p + "AND n.read_at IS NULL"@ + q
            &&& spec_notification_where(snoozed, archived, Some(other), mentioned, type_param, role) == wn
        }),
{
    reveal_strlit("true");
    reveal_strlit("false");
    reveal_strlit("");
    let types = notif_types(type_param);
    let p = NOTIF_WHERE_HEAD@ + snoozed_filter(snoozed) + " "@ + archived_filter(archived) + " "@;
    let q = " "@ + mentioned_filter(mentioned) + " "@ + type_filter(types);
    assert("false"@[0] != "true"@[0]);
    assert(Some("false"@) != Some("true"@));
    let wt = spec_notification_where(snoozed, archived, Some("true"@), mentioned, type_param, role);
    let wf = spec_notification_where(snoozed, archived, Some("false"@), mentioned, type_param, role);
    let wn = spec_notification_where(snoozed, archived, None, mentioned, type_param, role);
    if wn is Some {
        assert(wn->0 =~= p + q);
        assert(wt->0 =~= p + "AND n.read_at IS NOT NULL"@ + q);
        assert(wf->0 =~= p + "AND n.read_at IS NULL"@ + q);
    }
}

} // verus!

//! User rules: URL-free names, CSV export cells (formula-injection guard,
//! quote-all lines), the activity order-by allowlist, `?month=`, the
//! new-email check, lenient boolean words, the session-token candidates
//! and the deactivation guard.
use vstd::prelude::*;

use crate::ids::{parse_uuid, parsed_ids, uuid_value};
use crate::text::{
    chars_of, contains_ci, contains_ci_exec, find_char_exec, find_char_from,
    lemma_find_char_from_spec, push_all, push_range, split_char, split_pieces, starts_with,
    starts_with_exec, str_in, str_listed, string_of, string_views, to_lowercase, trim, trim_chars,
    unicode_lowercase, utf8_len, utf8_len_exceeds, views,
};

verus! {

broadcast use vstd::string::group_string_axioms;

/// First name holding a URL.
pub const FIRST_NAME_URL_MSG: &'static str = "First name cannot contain a URL.";

/// Last name holding a URL.
pub const LAST_NAME_URL_MSG: &'static str = "Last name cannot contain a URL.";

/// Deactivating an instance admin.
pub const DEACTIVATE_INSTANCE_ADMIN_MSG: &'static str = "You cannot deactivate your account since you are an instance admin";

/// Deactivating the sole admin of some project.
pub const DEACTIVATE_SOLE_PROJECT_ADMIN_MSG: &'static str = "You cannot deactivate account as you are the only admin in some projects.";

/// Deactivating the sole admin of some workspace.
pub const DEACTIVATE_SOLE_WORKSPACE_ADMIN_MSG: &'static str = "You cannot deactivate account as you are the only admin in some workspaces.";

/// Grouping and sub-grouping by the same key.
pub const GROUP_DUP_MSG: &'static str = "Group by and sub group by cannot have same parameters";

/// Export without a date.
pub const DATE_REQUIRED_MSG: &'static str = "Date is required";

/// Permission-class denial.
pub const PERMISSION_DETAIL_MSG: &'static str = "You do not have permission to perform this action.";

/// Onboarding / tour acknowledgement.
pub const UPDATED_MSG: &'static str = "Updated successfully";

/// Header of the activity CSV export.
pub const ACTIVITY_CSV_HEADER: [&'static str; 9] = [
    "Actor name",
    "Issue ID",
    "Project",
    "Created at",
    "Updated at",
    "Action",
    "Field",
    "Old value",
    "New value",
];

/// Keys of the user-stats response.
pub const USER_STATS_KEYS: [&'static str; 9] = [
    "state_distribution",
    "priority_distribution",
    "created_issues",
    "assigned_issues",
    "completed_issues",
    "pending_issues",
    "subscribed_issues",
    "present_cycles",
    "upcoming_cycles",
];

/// Keys of the dashboard response.
pub const DASHBOARD_KEYS: [&'static str; 9] = [
    "issue_activities",
    "completed_issues",
    "assigned_issues_count",
    "pending_issues_count",
    "completed_issues_count",
    "issues_due_week_count",
    "state_distribution",
    "overdue_issues",
    "upcoming_issues",
];

// ---------------------------------------------------------------------------
// Names
// ---------------------------------------------------------------------------

/// A value of at most 1000 UTF-8 bytes holding `http://`, `https://` or
/// `www.` in any ASCII case (lowercasing other characters never yields
/// these markers).
pub open spec fn spec_contains_url(value: Seq<char>) -> bool {
    utf8_len(value) <= 1000 && (contains_ci(value, "http://"@) || contains_ci(value, "https://"@)
        || contains_ci(value, "www."@))
}

fn contains_url(value: &str) -> (r: bool)
    ensures
        r == spec_contains_url(value@),
{
    let v = chars_of(value);
    if utf8_len_exceeds(&v, 1000) {
        return false;
    }
    let p1 = chars_of("http://");
    let p2 = chars_of("https://");
    let p3 = chars_of("www.");
    contains_ci_exec(&v, &p1) || contains_ci_exec(&v, &p2) || contains_ci_exec(&v, &p3)
}

/// First and last names must not hold a URL; the first name is checked
/// first.
pub fn validate_name(first: Option<&str>, last: Option<&str>) -> (r: Result<(), String>)
    ensures
        (first is Some && spec_contains_url(first->0@)) ==> (r matches Err(e) && e@
            == FIRST_NAME_URL_MSG@),
        !(first is Some && spec_contains_url(first->0@)) ==> (if last is Some && spec_contains_url(last->0@) {
            r matches Err(e) && e@ == LAST_NAME_URL_MSG@
        } else {
            r is Ok
        }),
{
    if let Some(f) = first {
        if contains_url(f) {
            return Err(FIRST_NAME_URL_MSG.to_owned());
        }
    }
    if let Some(l) = last {
        if contains_url(l) {
            return Err(LAST_NAME_URL_MSG.to_owned());
        }
    }
    Ok(())
}

/// Profile update body.
#[derive(Debug, Clone, Default)]
pub struct UpdateUser {
    pub first_name: Option<String>,
    pub last_name: Option<String>,
}

/// Validates an update body's names.
pub fn validate_update(body: &UpdateUser) -> (r: Result<(), String>)
    ensures
        (body.first_name is Some && spec_contains_url(body.first_name->0@)) ==> (r matches Err(
            e,
        ) && e@ == FIRST_NAME_URL_MSG@),
        !(body.first_name is Some && spec_contains_url(body.first_name->0@)) ==> (
        if body.last_name is Some && spec_contains_url(body.last_name->0@) {
            r matches Err(e) && e@ == LAST_NAME_URL_MSG@
        } else {
            r is Ok
        }),
{
    let first = match &body.first_name {
        Some(s) => Some(s.as_str()),
        None => None,
    };
    let last = match &body.last_name {
        Some(s) => Some(s.as_str()),
        None => None,
    };
    validate_name(first, last)
}

// ---------------------------------------------------------------------------
// CSV export
// ---------------------------------------------------------------------------

/// A leading character that would start a spreadsheet formula.
pub open spec fn is_formula_lead(c: char) -> bool {
    c == '=' || c == '+' || c == '-' || c == '@' || c == '\t' || c == '\r' || c == '\n'
}

/// The value with `'` prepended when it starts a formula.
pub open spec fn spec_sanitize_csv_value(v: Seq<char>) -> Seq<char> {
    if v.len() > 0 && is_formula_lead(v[0]) {
        seq!['\''] + v
    } else {
        v
    }
}

/// Guards one CSV value against formula injection: a value starting with
/// `=`, `+`, `-`, `@`, tab, CR or LF gets a leading `'`.
pub fn sanitize_csv_value(v: &str) -> (r: String)
    ensures
        r@ == spec_sanitize_csv_value(v@),
{
    let c = chars_of(v);
    if c.len() > 0 && (c[0] == '=' || c[0] == '+' || c[0] == '-' || c[0] == '@' || c[0] == '\t'
        || c[0] == '\r' || c[0] == '\n') {
        let mut out: Vec<char> = Vec::new();
        out.push('\'');
        push_all(&mut out, &c);
        string_of(&out)
    } else {
        v.to_owned()
    }
}

/// Guards every value of a row.
pub fn sanitize_csv_row(row: &[String]) -> (r: Vec<String>)
    ensures
        string_views(r@) == string_views(row@).map_values(|x: Seq<char>| spec_sanitize_csv_value(x)),
{
    let mut out: Vec<String> = Vec::new();
    let mut i: usize = 0;
    while i < row.len()
        invariant
            i <= row@.len(),
            string_views(out@) == string_views(row@).take(i as int).map_values(
                |x: Seq<char>| spec_sanitize_csv_value(x),
            ),
        decreases row.len() - i,
    {
        let s = sanitize_csv_value(row[i].as_str());
        let ghost before = out@;
        out.push(s);
        proof {
            assert(string_views(row@).take(i + 1) =~= string_views(row@).take(i as int).push(
                row@[i as int]@,
            ));
            assert(string_views(out@) =~= string_views(before).push(s@));
        }
        i = i + 1;
    }
    proof {
        assert(string_views(row@).take(row@.len() as int) =~= string_views(row@));
    }
    out
}

/// `v` with every `"` doubled.
pub open spec fn double_quotes(v: Seq<char>) -> Seq<char>
    decreases v.len(),
{
    if v.len() == 0 {
        Seq::empty()
    } else if v.last() == '"' {
        double_quotes(v.drop_last()) + seq!['"', '"']
    } else {
        double_quotes(v.drop_last()).push(v.last())
    }
}

/// One quoted cell.
pub open spec fn quote_cell(v: Seq<char>) -> Seq<char> {
    seq!['"'] + double_quotes(v) + seq!['"']
}

/// Cells joined by `,`.
pub open spec fn join_cells(cells: Seq<Seq<char>>) -> Seq<char>
    decreases cells.len(),
{
    if cells.len() == 0 {
        Seq::empty()
    } else if cells.len() == 1 {
        cells[0]
    } else {
        join_cells(cells.drop_last()) + seq![','] + cells.last()
    }
}

/// Spec of `csv_line_quoted_all`.
pub open spec fn spec_csv_line(row: Seq<Seq<char>>) -> Seq<char> {
    join_cells(row.map_values(|x: Seq<char>| quote_cell(spec_sanitize_csv_value(x)))) + seq![
        '\r',
        '\n',
    ]
}

fn quote_into(out: &mut Vec<char>, v: &[char])
    ensures
        final(out)@ == old(out)@ + quote_cell(v@),
{
    let ghost start = out@;
    out.push('"');
    let mut i: usize = 0;
    while i < v.len()
        invariant
            i <= v@.len(),
            out@ == start + seq!['"'] + double_quotes(v@.take(i as int)),
        decreases v.len() - i,
    {
        proof {
            assert(v@.take(i + 1).drop_last() =~= v@.take(i as int));
            assert(v@.take(i + 1).last() == v@[i as int]);
        }
        if v[i] == '"' {
            out.push('"');
            out.push('"');
        } else {
            out.push(v[i]);
        }
        proof {
            assert(out@ =~= start + seq!['"'] + double_quotes(v@.take(i + 1)));
        }
        i = i + 1;
    }
    out.push('"');
    proof {
        assert(v@.take(v@.len() as int) =~= v@);
        assert(out@ =~= start + quote_cell(v@));
    }
}

/// One CSV line in quote-all style: every value guarded, quotes doubled,
/// each cell quoted, cells joined by `,`, ended by CRLF.
pub fn csv_line_quoted_all(row: &[String]) -> (r: String)
    ensures
        r@ == spec_csv_line(string_views(row@)),
{
    let cells = sanitize_csv_row(row);
    let ghost qs = string_views(row@).map_values(
        |x: Seq<char>| quote_cell(spec_sanitize_csv_value(x)),
    );
    proof {
        assert(string_views(cells@).len() == cells@.len());
        assert(string_views(row@).len() == row@.len());
    }
    let mut out: Vec<char> = Vec::new();
    let mut i: usize = 0;
    while i < cells.len()
        invariant
            i <= cells@.len(),
            cells@.len() == row@.len(),
            string_views(cells@) == string_views(row@).map_values(
                |x: Seq<char>| spec_sanitize_csv_value(x),
            ),
            qs == string_views(row@).map_values(
                |x: Seq<char>| quote_cell(spec_sanitize_csv_value(x)),
            ),
            out@ == join_cells(qs.take(i as int)),
        decreases cells.len() - i,
    {
        proof {
            let t = qs.take(i + 1);
            assert(t.drop_last() =~= qs.take(i as int));
            assert(string_views(cells@)[i as int] == cells@[i as int]@);
            assert(t.last() == quote_cell(cells@[i as int]@));
            if i == 0 {
                assert(qs.take(0) =~= Seq::<Seq<char>>::empty());
            }
        }
        let ghost before = out@;
        if i > 0 {
            out.push(',');
        }
        let cv = chars_of(cells[i].as_str());
        quote_into(&mut out, &cv);
        proof {
            let t = qs.take(i + 1);
            if i == 0 {
                assert(out@ =~= t[0]);
            } else {
                assert(out@ =~= join_cells(t.drop_last()) + seq![','] + t.last());
            }
        }
        i = i + 1;
    }
    out.push('\r');
    out.push('\n');
    proof {
        assert(qs.take(cells@.len() as int) =~= qs);
        assert(out@ =~= join_cells(qs) + seq!['\r', '\n']);
    }
    string_of(&out)
}

// ---------------------------------------------------------------------------
// Activity order-by and month
// ---------------------------------------------------------------------------

/// Spec of `sanitize_activity_order_by`.
pub open spec fn spec_activity_order(raw: Option<Seq<char>>) -> Seq<char> {
    let v = match raw {
        Some(s) => s,
        None => "-created_at"@,
    };
    let desc = v.len() > 0 && v[0] == '-';
    let bare = if desc {
        v.drop_first()
    } else {
        v
    };
    if v.len() == 0 || (bare.len() > 0 && bare[0] == '-') {
        "-created_at"@
    } else if bare == "created_at"@ || bare == "updated_at"@ {
        if desc {
            "-"@ + bare
        } else {
            bare
        }
    } else {
        "-created_at"@
    }
}

/// Activity ordering: `created_at` or `updated_at`, optionally descending;
/// anything else (or nothing) is `-created_at`.
pub fn sanitize_activity_order_by(raw: Option<&str>) -> (r: String)
    ensures
        r@ == spec_activity_order(
            match raw {
                Some(s) => Some(s@),
                None => None,
            },
        ),
{
    let v = match raw {
        Some(s) => chars_of(s),
        None => chars_of("-created_at"),
    };
    if v.len() == 0 {
        return "-created_at".to_owned();
    }
    let desc = v[0] == '-';
    let mut bare: Vec<char> = Vec::new();
    if desc {
        push_range(&mut bare, &v, 1, v.len());
        assert(bare@ =~= v@.drop_first());
    } else {
        push_all(&mut bare, &v);
        assert(bare@ =~= v@);
    }
    if bare.len() > 0 && bare[0] == '-' {
        return "-created_at".to_owned();
    }
    let created = chars_of("created_at");
    let updated = chars_of("updated_at");
    if crate::text::chars_eq(&bare, &created) || crate::text::chars_eq(&bare, &updated) {
        if desc {
            let mut out: Vec<char> = Vec::new();
            out.push('-');
            push_all(&mut out, &bare);
            proof {
                reveal_strlit("-");
                assert(out@ =~= "-"@ + bare@);
            }
            string_of(&out)
        } else {
            string_of(&bare)
        }
    } else {
        "-created_at".to_owned()
    }
}

/// `(column, descending)` of the activity ordering for a `?order_by=`
/// value, after the allowlist.
pub open spec fn spec_activity_column(raw: Option<Seq<char>>) -> (Seq<char>, bool) {
    let o = spec_activity_order(raw);
    if o == "-updated_at"@ {
        ("a.updated_at"@, true)
    } else if o == "created_at"@ {
        ("a.created_at"@, false)
    } else if o == "updated_at"@ {
        ("a.updated_at"@, false)
    } else {
        ("a.created_at"@, true)
    }
}

/// Column and direction of the activity list for a `?order_by=` value.
pub fn activity_order_column(raw: Option<&str>) -> (r: (&'static str, bool))
    ensures
        r.0@ == spec_activity_column(
            match raw {
                Some(s) => Some(s@),
                None => None,
            },
        ).0,
        r.1 == spec_activity_column(
            match raw {
                Some(s) => Some(s@),
                None => None,
            },
        ).1,
{
    let o = sanitize_activity_order_by(raw);
    if crate::text::str_eq(o.as_str(), "-updated_at") {
        ("a.updated_at", true)
    } else if crate::text::str_eq(o.as_str(), "created_at") {
        ("a.created_at", false)
    } else if crate::text::str_eq(o.as_str(), "updated_at") {
        ("a.updated_at", false)
    } else {
        ("a.created_at", true)
    }
}

/// Project ids of the repeated `?project=` filter: the values that are
/// ids, in order (the others are ignored).
pub fn activity_project_ids(projects: &[String]) -> (r: Vec<u128>)
    ensures
        r@ == parsed_ids(string_views(projects@)),
{
    let ghost vs = string_views(projects@);
    let mut out: Vec<u128> = Vec::new();
    let mut i: usize = 0;
    while i < projects.len()
        invariant
            i <= projects@.len(),
            vs == string_views(projects@),
            out@ == parsed_ids(vs.take(i as int)),
        decreases projects.len() - i,
    {
        proof {
            assert(vs.take(i + 1).drop_last() =~= vs.take(i as int));
            assert(vs.take(i + 1).last() == projects@[i as int]@);
        }
        match parse_uuid(projects[i].as_str()) {
            Some(v) => {
                out.push(v);
            },
            None => {},
        }
        proof {
            let t = vs.take(i + 1);
            assert(out@ =~= parsed_ids(t.drop_last()) + match uuid_value(t.last()) {
                Some(v) => seq![v],
                None => Seq::<u128>::empty(),
            });
        }
        i = i + 1;
    }
    proof {
        assert(vs.take(projects@.len() as int) =~= vs);
    }
    out
}

/// An ASCII digit.
pub open spec fn is_digit(c: char) -> bool {
    48 <= c as u32 <= 57
}

/// Decimal value of a digit string.
pub open spec fn digits_value(d: Seq<char>) -> int
    decreases d.len(),
{
    if d.len() == 0 {
        0
    } else {
        digits_value(d.drop_last()) * 10 + (d.last() as u32 - 48)
    }
}

/// Every character is an ASCII digit.
pub open spec fn all_digits(d: Seq<char>) -> bool {
    forall|i: int| 0 <= i < d.len() ==> is_digit(#[trigger] d[i])
}

/// `s` without a leading `+` or `-`.
pub open spec fn sign_stripped(s: Seq<char>) -> Seq<char> {
    if s.len() > 0 && (s[0] == '-' || s[0] == '+') {
        s.drop_first()
    } else {
        s
    }
}

/// What `str::parse::<i32>` accepts: an optional sign, then one or more
/// ASCII digits, the value fitting an `i32`.
pub open spec fn parse_i32(s: Seq<char>) -> Option<int> {
    let d = sign_stripped(s);
    let v = if s.len() > 0 && s[0] == '-' {
        -digits_value(d)
    } else {
        digits_value(d)
    };
    if d.len() > 0 && all_digits(d) && i32::MIN <= v <= i32::MAX {
        Some(v)
    } else {
        None
    }
}

/// `n` clamped to the months 1..=12.
pub open spec fn clamp_month(n: int) -> int {
    if n < 1 {
        1
    } else if n > 12 {
        12
    } else {
        n
    }
}

/// Spec of `parse_month`.
pub open spec fn spec_parse_month(raw: Option<Seq<char>>, float_whole: Option<i32>) -> int {
    let s = match raw {
        Some(r) => trim(r),
        None => "1"@,
    };
    if s.len() == 0 {
        1
    } else {
        match parse_i32(s) {
            Some(n) => clamp_month(n),
            None => match float_whole {
                Some(w) => clamp_month(w as int),
                None => 1,
            },
        }
    }
}

proof fn lemma_digits_value_nonneg(d: Seq<char>)
    requires
        forall|i: int| 0 <= i < d.len() ==> is_digit(#[trigger] d[i]),
    ensures
        digits_value(d) >= 0,
    decreases d.len(),
{
    if d.len() > 0 {
        lemma_digits_value_nonneg(d.drop_last());
        assert(is_digit(d[d.len() - 1]));
    }
}

/// `str::parse::<i32>`.
#[verifier::spinoff_prover]
#[verifier::rlimit(30)]
fn parse_i32_exec(s: &[char]) -> (r: Option<i32>)
    ensures
        match parse_i32(s@) {
            Some(v) => r == Some(v as i32),
            None => r is None,
        },
{
    let n = s.len();
    if n == 0 {
        return None;
    }
    let neg = s[0] == '-';
    let signed = s[0] == '-' || s[0] == '+';
    let start: usize = if signed {
        1
    } else {
        0
    };
    let ghost d = if signed {
        s@.drop_first()
    } else {
        s@
    };
    proof {
        assert(d =~= s@.subrange(start as int, n as int));
    }
    if start >= n {
        return None;
    }
    let mut acc: i64 = 0;
    let mut i = start;
    while i < n
        invariant
            start <= i <= n,
            n == s@.len(),
            n > 0,
            neg == (s@[0] == '-'),
            signed == (s@[0] == '-' || s@[0] == '+'),
            start == (if signed { 1usize } else { 0usize }),
            d == sign_stripped(s@),
            d == s@.subrange(start as int, n as int),
            0 <= acc <= 0x80000000,
            forall|k: int| start <= k < i ==> is_digit(#[trigger] s@[k]),
            acc as int == digits_value(s@.subrange(start as int, i as int)),
        decreases n - i,
    {
        let c = s[i];
        let u = c as u32;
        if u < 48 || u > 57 {
            proof {
                assert(d[i - start] == c);
                assert(!is_digit(d[i - start]));
                assert(!all_digits(d));
            }
            return None;
        }
        let ghost prev = s@.subrange(start as int, i as int);
        let ghost next = s@.subrange(start as int, i + 1);
        proof {
            assert(next.drop_last() =~= prev);
            assert(next.last() == c);
        }
        let nv = acc * 10 + (u - 48) as i64;
        if nv > 0x80000000 {
            proof {
                assert(digits_value(next) == nv);
                assert(is_digit(c));
                assert forall|k: int| start <= k < i + 1 implies is_digit(#[trigger] s@[k]) by {
                    if k == i {
                        assert(s@[k] == c);
                    }
                }
                lemma_prefix_value_grows(s@, start as int, i + 1, n as int);
                if all_digits(d) {
                    assert forall|k: int| start <= k < n implies is_digit(#[trigger] s@[k]) by {
                        assert(d[k - start] == s@[k]);
                    }
                    assert(digits_value(d) >= nv);
                }
            }
            return None;
        }
        acc = nv;
        i = i + 1;
    }
    proof {
        assert(s@.subrange(start as int, n as int) == d);
        assert forall|k: int| 0 <= k < d.len() implies is_digit(#[trigger] d[k]) by {
            assert(d[k] == s@[start + k]);
        }
    }
    if neg {
        Some((0 - acc) as i32)
    } else if acc > 0x7FFFFFFF {
        None
    } else {
        Some(acc as i32)
    }
}

proof fn lemma_prefix_value_grows(s: Seq<char>, start: int, j: int, n: int)
    requires
        0 <= start <= j <= n <= s.len(),
        forall|k: int| start <= k < j ==> is_digit(#[trigger] s[k]),
    ensures
        (forall|k: int| start <= k < n ==> is_digit(#[trigger] s[k])) ==> digits_value(
            s.subrange(start, n),
        ) >= digits_value(s.subrange(start, j)),
    decreases n - j,
{
    if j < n && (forall|k: int| start <= k < n ==> is_digit(#[trigger] s[k])) {
        lemma_prefix_value_grows(s, start, j + 1, n);
        let a = s.subrange(start, j + 1);
        assert(a.drop_last() =~= s.subrange(start, j));
        assert forall|k: int| 0 <= k < a.drop_last().len() implies is_digit(
            #[trigger] a.drop_last()[k],
        ) by {
            assert(a.drop_last()[k] == s[start + k]);
        }
        lemma_digits_value_nonneg(a.drop_last());
        assert(is_digit(s[j]));
    }
}

/// `?month=` value: absent means 1; blank means 1; an `i32` is clamped to
/// 1..=12; otherwise `float_whole` decides — the text read as a float,
/// when that is a whole number, saturated to `i32` — clamped, else 1.
pub fn parse_month(raw: Option<&str>, float_whole: Option<i32>) -> (r: i32)
    ensures
        r == spec_parse_month(
            match raw {
                Some(s) => Some(s@),
                None => None,
            },
            float_whole,
        ),
{
    let v = match raw {
        Some(s) => chars_of(s),
        None => chars_of("1"),
    };
    let t = trim_chars(&v);
    proof {
        reveal_strlit("1");
        if raw is None {
            assert(trim("1"@) =~= "1"@) by {
                assert("1"@.len() == 1);
                assert(!crate::text::is_ws("1"@[0]));
            }
        }
    }
    if t.len() == 0 {
        return 1;
    }
    match parse_i32_exec(&t) {
        Some(n) => {
            if n < 1 {
                1
            } else if n > 12 {
                12
            } else {
                n
            }
        },
        None => match float_whole {
            Some(w) => {
                if w < 1 {
                    1
                } else if w > 12 {
                    12
                } else {
                    w
                }
            },
            None => 1,
        },
    }
}

// ---------------------------------------------------------------------------
// Query and body shapes
// ---------------------------------------------------------------------------

/// Query of the activity lists; `project` is the repeated `?project=`.
#[derive(Debug, Clone, Default)]
pub struct ActivityQuery {
    pub cursor: Option<String>,
    pub per_page: Option<String>,
    pub order_by: Option<String>,
    pub project: Option<Vec<String>>,
}

/// Body of the activity export.
#[derive(Debug, Clone, Default)]
pub struct ExportBody {
    pub date: Option<String>,
}

/// Query carrying `?month=`.
#[derive(Debug, Clone, Default)]
pub struct MonthQuery {
    pub month: Option<String>,
}

// ---------------------------------------------------------------------------
// New email
// ---------------------------------------------------------------------------

/// Blank new email.
pub const EMAIL_REQUIRED_MSG: &'static str = "Email is required";

/// New email failing the address-format check.
pub const EMAIL_INVALID_MSG: &'static str = "Invalid email format";

/// Checks a requested new email: it must not be blank, then it must pass
/// the address-format check, whose verdict on the trimmed address is
/// `format_ok` (whether the address is taken is checked by lookup).
pub fn validate_new_email(new_email: &str, format_ok: bool) -> (r: Result<(), String>)
    ensures
        r is Ok <==> (trim(new_email@).len() > 0 && format_ok),
        r matches Err(e) ==> e@ == (if trim(new_email@).len() == 0 {
            EMAIL_REQUIRED_MSG@
        } else {
            EMAIL_INVALID_MSG@
        }),
{
    let v = chars_of(new_email);
    if trim_chars(&v).len() == 0 {
        return Err(EMAIL_REQUIRED_MSG.to_owned());
    }
    if !format_ok {
        return Err(EMAIL_INVALID_MSG.to_owned());
    }
    Ok(())
}

// ---------------------------------------------------------------------------
// Lenient booleans
// ---------------------------------------------------------------------------

/// Words read as `true`.
pub const TRUE_WORDS: [&'static str; 6] = ["true", "1", "t", "yes", "y", "on"];

/// Words read as `false`.
pub const FALSE_WORDS: [&'static str; 6] = ["false", "0", "f", "no", "n", "off"];

/// A trimmed, lowercased word read as a boolean: a true word, a false
/// word, or else `numeric`.
pub open spec fn spec_bool_word(t: Seq<char>, numeric: Option<bool>) -> Option<bool> {
    if str_listed(TRUE_WORDS@, t) {
        Some(true)
    } else if str_listed(FALSE_WORDS@, t) {
        Some(false)
    } else {
        numeric
    }
}

/// Spec of `coerce_bool_text`.
pub open spec fn spec_coerce_bool_text(s: Seq<char>, numeric: Option<bool>) -> Option<bool> {
    spec_bool_word(unicode_lowercase(trim(s)), numeric)
}

/// Reads an already trimmed and lowercased word as a boolean: one of the
/// true or false words, otherwise `numeric` decides.
pub fn bool_word(word: &str, numeric: Option<bool>) -> (r: Option<bool>)
    ensures
        r == spec_bool_word(word@, numeric),
{
    let yes: &[&str] = &TRUE_WORDS;
    let no: &[&str] = &FALSE_WORDS;
    assert(yes@ == TRUE_WORDS@);
    assert(no@ == FALSE_WORDS@);
    if str_in(yes, word) {
        Some(true)
    } else if str_in(no, word) {
        Some(false)
    } else {
        numeric
    }
}

/// A text read as a boolean: trimmed and lowercased, one of the true or
/// false words; otherwise `numeric` decides — the same text read as a
/// number, `Some(value != 0)`, or `None` when it is not a number.
pub fn coerce_bool_text(s: &str, numeric: Option<bool>) -> (r: Option<bool>)
    ensures
        r == spec_coerce_bool_text(s@, numeric),
{
    let v = chars_of(s);
    let t = string_of(&trim_chars(&v));
    let lower = to_lowercase(t.as_str());
    bool_word(lower.as_str(), numeric)
}

// ---------------------------------------------------------------------------
// Priority distribution order
// ---------------------------------------------------------------------------

/// Priorities in the order the distribution lists them.
pub const PRIORITY_ORDER: [&'static str; 5] = ["urgent", "high", "medium", "low", "none"];

/// Rank of a priority: its place in the order, or 5 for any other.
pub open spec fn priority_rank(p: Seq<char>) -> int {
    if p == "urgent"@ {
        0
    } else if p == "high"@ {
        1
    } else if p == "medium"@ {
        2
    } else if p == "low"@ {
        3
    } else if p == "none"@ {
        4
    } else {
        5
    }
}

/// The rows of rank `k`, in their order.
pub open spec fn rows_of_rank(rows: Seq<(Seq<char>, i64)>, k: int) -> Seq<(Seq<char>, i64)>
    decreases rows.len(),
{
    if rows.len() == 0 {
        Seq::empty()
    } else {
        rows_of_rank(rows.drop_last(), k) + if priority_rank(rows.last().0) == k {
            seq![rows.last()]
        } else {
            Seq::empty()
        }
    }
}

/// The rows sorted by rank, keeping their order within a rank.
pub open spec fn spec_priority_sorted(rows: Seq<(Seq<char>, i64)>) -> Seq<(Seq<char>, i64)> {
    rows_of_rank(rows, 0) + rows_of_rank(rows, 1) + rows_of_rank(rows, 2) + rows_of_rank(rows, 3)
        + rows_of_rank(rows, 4) + rows_of_rank(rows, 5)
}

/// Plain view of `(priority, count)` rows.
pub open spec fn count_views(v: Seq<(String, i64)>) -> Seq<(Seq<char>, i64)> {
    v.map_values(|e: (String, i64)| (e.0@, e.1))
}

fn rank_of(p: &str) -> (r: u8)
    ensures
        r as int == priority_rank(p@),
{
    if crate::text::str_eq(p, "urgent") {
        0
    } else if crate::text::str_eq(p, "high") {
        1
    } else if crate::text::str_eq(p, "medium") {
        2
    } else if crate::text::str_eq(p, "low") {
        3
    } else if crate::text::str_eq(p, "none") {
        4
    } else {
        5
    }
}

fn push_rank(out: &mut Vec<(String, i64)>, rows: &[(String, i64)], k: u8)
    ensures
        count_views(final(out)@) == count_views(old(out)@) + rows_of_rank(count_views(rows@), k as int),
{
    let ghost vs = count_views(rows@);
    let ghost start = count_views(out@);
    let mut i: usize = 0;
    while i < rows.len()
        invariant
            i <= rows@.len(),
            vs == count_views(rows@),
            count_views(out@) == start + rows_of_rank(vs.take(i as int), k as int),
        decreases rows.len() - i,
    {
        proof {
            assert(vs.take(i + 1).drop_last() =~= vs.take(i as int));
            assert(vs.take(i + 1).last() == (rows@[i as int].0@, rows@[i as int].1));
        }
        let ghost before = out@;
        if rank_of(rows[i].0.as_str()) == k {
            out.push((rows[i].0.as_str().to_owned(), rows[i].1));
            assert(count_views(out@) =~= count_views(before).push((rows@[i as int].0@, rows@[i as int].1)));
        }
        i = i + 1;
    }
    assert(vs.take(rows@.len() as int) =~= vs);
}

/// The priority distribution rows sorted urgent, high, medium, low, none,
/// then any other priority, keeping the given order within each.
pub fn priority_sorted(rows: &[(String, i64)]) -> (r: Vec<(String, i64)>)
    ensures
        count_views(r@) == spec_priority_sorted(count_views(rows@)),
{
    let mut out: Vec<(String, i64)> = Vec::new();
    assert(count_views(out@) =~= Seq::<(Seq<char>, i64)>::empty());
    push_rank(&mut out, rows, 0);
    push_rank(&mut out, rows, 1);
    push_rank(&mut out, rows, 2);
    push_rank(&mut out, rows, 3);
    push_rank(&mut out, rows, 4);
    push_rank(&mut out, rows, 5);
    out
}

// ---------------------------------------------------------------------------
// Profile patch
// ---------------------------------------------------------------------------

/// A profile body value, as the patch reads it.
#[derive(Debug, Clone)]
pub enum ProfileField {
    /// `null`.
    Null,
    /// A boolean.
    Bool(bool),
    /// A number: `whole` when it is an `i64`; `nonzero` whether its value,
    /// read as a float, is not zero.
    Number { whole: Option<i64>, nonzero: bool },
    /// A string; `numeric` is the trimmed, lowercased text read as a
    /// float: `Some(value != 0)`, or `None` when it is not a number.
    Text { text: String, numeric: Option<bool> },
    /// An array or an object.
    Other,
}

/// One column write of a profile patch.
#[derive(Debug, Clone, PartialEq, Eq)]
pub enum ProfileWrite {
    /// Store the body's JSON value under the key.
    Json(String),
    /// Store a boolean.
    Bool(String, bool),
    /// Store text, or clear the column.
    Text(String, Option<String>),
    /// Store the first day of the week.
    StartOfWeek(i16),
    /// Store the last workspace id, or clear it.
    LastWorkspace(Option<u128>),
}

/// Plain view of a column write.
pub enum WriteView {
    Json(Seq<char>),
    Bool(Seq<char>, bool),
    Text(Seq<char>, Option<Seq<char>>),
    StartOfWeek(i16),
    LastWorkspace(Option<u128>),
}

/// The view of a column write.
pub open spec fn write_view(w: ProfileWrite) -> WriteView {
    match w {
        ProfileWrite::Json(k) => WriteView::Json(k@),
        ProfileWrite::Bool(k, b) => WriteView::Bool(k@, b),
        ProfileWrite::Text(k, t) => WriteView::Text(
            k@,
            match t {
                Some(x) => Some(x@),
                None => None,
            },
        ),
        ProfileWrite::StartOfWeek(n) => WriteView::StartOfWeek(n),
        ProfileWrite::LastWorkspace(u) => WriteView::LastWorkspace(u),
    }
}

/// The views of column writes.
pub open spec fn writes_view(v: Seq<ProfileWrite>) -> Seq<WriteView> {
    v.map_values(|w: ProfileWrite| write_view(w))
}

/// Profile columns holding JSON.
pub const PROFILE_JSON_KEYS: [&'static str; 6] = [
    "theme",
    "onboarding_step",
    "billing_address",
    "mobile_onboarding_step",
    "goals",
    "product_tour",
];

/// Profile columns holding booleans.
pub const PROFILE_BOOL_KEYS: [&'static str; 10] = [
    "is_tour_completed",
    "is_onboarded",
    "has_billing_address",
    "is_mobile_onboarded",
    "mobile_timezone_auto_set",
    "is_smooth_cursor_enabled",
    "is_app_rail_docked",
    "has_marketing_email_consent",
    "is_navigation_tour_completed",
    "is_subscribed_to_changelog",
];

/// Profile columns holding text.
pub const PROFILE_TEXT_KEYS: [&'static str; 7] = [
    "use_case",
    "role",
    "billing_address_country",
    "company_name",
    "language",
    "background_color",
    "notification_view_mode",
];

/// Key of the first day of the week.
pub const WEEK_START_KEY: &'static str = "start_of_the_week";

/// Key of the last workspace.
pub const LAST_WORKSPACE_KEY: &'static str = "last_workspace_id";

/// The value of the first entry under `k`.
pub open spec fn lookup(es: Seq<(String, ProfileField)>, k: Seq<char>) -> Option<ProfileField>
    decreases es.len(),
{
    if es.len() == 0 {
        None
    } else if es[0].0@ == k {
        Some(es[0].1)
    } else {
        lookup(es.drop_first(), k)
    }
}

/// A value read as a boolean: booleans as they are, numbers by being
/// non-zero, text by the boolean words; `None` otherwise.
pub open spec fn field_bool(f: ProfileField) -> Option<bool> {
    match f {
        ProfileField::Bool(b) => Some(b),
        ProfileField::Number { whole, nonzero } => match whole {
            Some(i) => Some(i != 0),
            None => Some(nonzero),
        },
        ProfileField::Text { text, numeric } => spec_coerce_bool_text(text@, numeric),
        _ => None,
    }
}

/// A value read for a text column: `Some(None)` clears it (null), text
/// sets it, anything else is ignored.
pub open spec fn field_text(f: ProfileField) -> Option<Option<Seq<char>>> {
    match f {
        ProfileField::Null => Some(None),
        ProfileField::Text { text, numeric } => Some(Some(text@)),
        _ => None,
    }
}

/// A value read as an `i16`: an integer number that fits, or trimmed text
/// that parses as one.
pub open spec fn field_week(f: ProfileField) -> Option<i16> {
    match f {
        ProfileField::Number { whole, nonzero } => match whole {
            Some(i) => if i16::MIN <= i <= i16::MAX {
                Some(i as i16)
            } else {
                None
            },
            None => None,
        },
        ProfileField::Text { text, numeric } => match parse_i32(trim(text@)) {
            Some(v) => if i16::MIN <= v <= i16::MAX {
                Some(v as i16)
            } else {
                None
            },
            None => None,
        },
        _ => None,
    }
}

/// A value read as the last workspace: `Some(None)` clears it (null), an
/// id text sets it, anything else is ignored.
pub open spec fn field_workspace(f: ProfileField) -> Option<Option<u128>> {
    match f {
        ProfileField::Null => Some(None),
        ProfileField::Text { text, numeric } => match uuid_value(text@) {
            Some(u) => Some(Some(u)),
            None => None,
        },
        _ => None,
    }
}

/// The write for `key` of column kind `kind` (0 JSON, 1 boolean, 2 text),
/// if the body has that key and its value suits the column.
pub open spec fn one_write(es: Seq<(String, ProfileField)>, key: Seq<char>, kind: int) -> Seq<WriteView> {
    match lookup(es, key) {
        None => Seq::empty(),
        Some(f) => if kind == 0 {
            seq![WriteView::Json(key)]
        } else if kind == 1 {
            match field_bool(f) {
                Some(b) => seq![WriteView::Bool(key, b)],
                None => Seq::empty(),
            }
        } else {
            match field_text(f) {
                Some(t) => seq![WriteView::Text(key, t)],
                None => Seq::empty(),
            }
        },
    }
}

/// The writes for the keys of one column kind, in the keys' order.
pub open spec fn keyed_writes(es: Seq<(String, ProfileField)>, keys: Seq<&str>, kind: int) -> Seq<WriteView>
    decreases keys.len(),
{
    if keys.len() == 0 {
        Seq::empty()
    } else {
        keyed_writes(es, keys.drop_last(), kind) + one_write(es, keys.last()@, kind)
    }
}

/// The writes of a profile patch body: the JSON columns, the boolean
/// columns, the text columns, the first day of the week and the last
/// workspace, each in its list's order; every other key (`user` and
/// `user_id` among them) writes nothing.
pub open spec fn spec_profile_writes(es: Seq<(String, ProfileField)>) -> Seq<WriteView> {
    keyed_writes(es, PROFILE_JSON_KEYS@, 0) + keyed_writes(es, PROFILE_BOOL_KEYS@, 1)
        + keyed_writes(es, PROFILE_TEXT_KEYS@, 2) + match lookup(es, WEEK_START_KEY@) {
        Some(f) => match field_week(f) {
            Some(n) => seq![WriteView::StartOfWeek(n)],
            None => Seq::empty(),
        },
        None => Seq::empty(),
    } + match lookup(es, LAST_WORKSPACE_KEY@) {
        Some(f) => match field_workspace(f) {
            Some(u) => seq![WriteView::LastWorkspace(u)],
            None => Seq::empty(),
        },
        None => Seq::empty(),
    }
}

fn lookup_exec<'a>(es: &'a [(String, ProfileField)], k: &str) -> (r: Option<&'a ProfileField>)
    ensures
        match r {
            Some(f) => lookup(es@, k@) == Some(*f),
            None => lookup(es@, k@) is None,
        },
{
    let mut i: usize = 0;
    assert(es@.subrange(0, es@.len() as int) =~= es@);
    while i < es.len()
        invariant
            i <= es@.len(),
            lookup(es@, k@) == lookup(es@.subrange(i as int, es@.len() as int), k@),
        decreases es.len() - i,
    {
        let ghost sub = es@.subrange(i as int, es@.len() as int);
        assert(sub[0] == es@[i as int]);
        assert(sub.drop_first() =~= es@.subrange(i + 1, es@.len() as int));
        if crate::text::str_eq(es[i].0.as_str(), k) {
            return Some(&es[i].1);
        }
        i = i + 1;
    }
    None
}

fn field_bool_exec(f: &ProfileField) -> (r: Option<bool>)
    ensures
        r == field_bool(*f),
{
    match f {
        ProfileField::Bool(b) => Some(*b),
        ProfileField::Number { whole, nonzero } => match whole {
            Some(i) => Some(*i != 0),
            None => Some(*nonzero),
        },
        ProfileField::Text { text, numeric } => coerce_bool_text(text.as_str(), *numeric),
        _ => None,
    }
}

fn field_week_exec(f: &ProfileField) -> (r: Option<i16>)
    ensures
        r == field_week(*f),
{
    match f {
        ProfileField::Number { whole, nonzero } => match whole {
            Some(i) => if -32768 <= *i && *i <= 32767 {
                Some(*i as i16)
            } else {
                None
            },
            None => None,
        },
        ProfileField::Text { text, numeric } => {
            let v = chars_of(text.as_str());
            let t = trim_chars(&v);
            match parse_i32_exec(&t) {
                Some(x) => if -32768 <= x && x <= 32767 {
                    Some(x as i16)
                } else {
                    None
                },
                None => None,
            }
        },
        _ => None,
    }
}

fn push_keyed(
    out: &mut Vec<ProfileWrite>,
    es: &[(String, ProfileField)],
    keys: &[&'static str],
    kind: u8,
)
    requires
        kind <= 2,
    ensures
        writes_view(final(out)@) == writes_view(old(out)@) + keyed_writes(es@, keys@, kind as int),
{
    let ghost start = writes_view(out@);
    let mut i: usize = 0;
    while i < keys.len()
        invariant
            i <= keys@.len(),
            kind <= 2,
            writes_view(out@) == start + keyed_writes(es@, keys@.take(i as int), kind as int),
        decreases keys.len() - i,
    {
        proof {
            assert(keys@.take(i + 1).drop_last() =~= keys@.take(i as int));
            assert(keys@.take(i + 1).last() == keys@[i as int]);
        }
        let key = keys[i];
        let ghost before = out@;
        match lookup_exec(es, key) {
            None => {
                assert(writes_view(out@) =~= writes_view(before) + one_write(es@, key@, kind as int));
            },
            Some(f) => {
                if kind == 0 {
                    out.push(ProfileWrite::Json(key.to_owned()));
                } else if kind == 1 {
                    match field_bool_exec(f) {
                        Some(b) => out.push(ProfileWrite::Bool(key.to_owned(), b)),
                        None => {},
                    }
                } else {
                    match f {
                        ProfileField::Null => out.push(ProfileWrite::Text(key.to_owned(), None)),
                        ProfileField::Text { text, numeric } => out.push(
                            ProfileWrite::Text(key.to_owned(), Some(text.as_str().to_owned())),
                        ),
                        _ => {},
                    }
                }
                assert(writes_view(out@) =~= writes_view(before) + one_write(es@, key@, kind as int));
            },
        }
        i = i + 1;
    }
    assert(keys@.take(keys@.len() as int) =~= keys@);
}

/// The column writes of a profile patch body, given as `(key, value)`
/// entries (the first entry of a key counts): JSON columns, boolean
/// columns (lenient booleans; unreadable values skipped), text columns
/// (null clears; non-text skipped), the first day of the week (an `i16`
/// number or trimmed text) and the last workspace (null clears; an id
/// sets; anything else skipped). Keys on no list, such as `user` and
/// `user_id`, are ignored.
pub fn profile_writes(entries: &[(String, ProfileField)]) -> (r: Vec<ProfileWrite>)
    ensures
        writes_view(r@) == spec_profile_writes(entries@),
{
    let mut out: Vec<ProfileWrite> = Vec::new();
    assert(writes_view(out@) =~= Seq::<WriteView>::empty());
    let jk: &[&'static str] = &PROFILE_JSON_KEYS;
    let bk: &[&'static str] = &PROFILE_BOOL_KEYS;
    let tk: &[&'static str] = &PROFILE_TEXT_KEYS;
    assert(jk@ == PROFILE_JSON_KEYS@);
    assert(bk@ == PROFILE_BOOL_KEYS@);
    assert(tk@ == PROFILE_TEXT_KEYS@);
    push_keyed(&mut out, entries, jk, 0);
    push_keyed(&mut out, entries, bk, 1);
    push_keyed(&mut out, entries, tk, 2);
    let ghost mid = out@;
    match lookup_exec(entries, WEEK_START_KEY) {
        Some(f) => match field_week_exec(f) {
            Some(n) => out.push(ProfileWrite::StartOfWeek(n)),
            None => {},
        },
        None => {},
    }
    let ghost mid2 = out@;
    match lookup_exec(entries, LAST_WORKSPACE_KEY) {
        Some(f) => match f {
            ProfileField::Null => out.push(ProfileWrite::LastWorkspace(None)),
            ProfileField::Text { text, numeric } => match crate::ids::parse_uuid(text.as_str()) {
                Some(u) => out.push(ProfileWrite::LastWorkspace(Some(u))),
                None => {},
            },
            _ => {},
        },
        None => {},
    }
    proof {
        assert(writes_view(mid2) =~= writes_view(mid) + match lookup(entries@, WEEK_START_KEY@) {
            Some(f) => match field_week(f) {
                Some(n) => seq![WriteView::StartOfWeek(n)],
                None => Seq::<WriteView>::empty(),
            },
            None => Seq::<WriteView>::empty(),
        });
        assert(writes_view(out@) =~= writes_view(mid2) + match lookup(entries@, LAST_WORKSPACE_KEY@) {
            Some(f) => match field_workspace(f) {
                Some(u) => seq![WriteView::LastWorkspace(u)],
                None => Seq::<WriteView>::empty(),
            },
            None => Seq::<WriteView>::empty(),
        });
    }
    out
}

// ---------------------------------------------------------------------------
// Session tokens
// ---------------------------------------------------------------------------

/// Cookie carrying the access token.
pub const ACCESS_COOKIE: &'static str = "plane_at";

/// Host-locked cookie carrying the access token.
pub const ACCESS_COOKIE_HOST: &'static str = "__Host-plane_at";

/// The bearer token of an `Authorization` value, trimmed, if it has one.
pub open spec fn bearer_token(auth: Option<Seq<char>>) -> Seq<Seq<char>> {
    match auth {
        Some(h) => if starts_with(h, "Bearer "@) {
            seq![trim(h.subrange(7, h.len() as int))]
        } else {
            Seq::empty()
        },
        None => Seq::empty(),
    }
}

/// The trimmed value of one cookie pair when its name is an access-token
/// cookie.
pub open spec fn cookie_token(pair: Seq<char>) -> Seq<Seq<char>> {
    let t = trim(pair);
    match find_char_from(t, '=', 0) {
        Some(i) => {
            let k = t.subrange(0, i);
            if k == ACCESS_COOKIE@ || k == ACCESS_COOKIE_HOST@ {
                seq![trim(t.subrange(i + 1, t.len() as int))]
            } else {
                Seq::empty()
            }
        },
        None => Seq::empty(),
    }
}

/// The access-token cookie values of the pairs, in order.
pub open spec fn cookie_tokens(pairs: Seq<Seq<char>>) -> Seq<Seq<char>>
    decreases pairs.len(),
{
    if pairs.len() == 0 {
        Seq::empty()
    } else {
        cookie_tokens(pairs.drop_last()) + cookie_token(pairs.last())
    }
}

/// Spec of `session_token_candidates`.
pub open spec fn spec_token_candidates(auth: Option<Seq<char>>, cookie: Option<Seq<char>>) -> Seq<
    Seq<char>,
> {
    bearer_token(auth) + match cookie {
        Some(c) => cookie_tokens(split_char(c, ';')),
        None => Seq::empty(),
    }
}

fn cookie_token_exec(pair: &[char]) -> (r: Option<Vec<char>>)
    ensures
        match r {
            Some(v) => cookie_token(pair@) == seq![v@],
            None => cookie_token(pair@) == Seq::<Seq<char>>::empty(),
        },
{
    let t = trim_chars(pair);
    match find_char_exec(&t, '=', 0) {
        Some(i) => {
            proof {
                lemma_find_char_from_spec(t@, '=', 0);
                assert(find_char_from(t@, '=', 0) == Some(i as int));
            }
            assert(i < t.len());
            let mut k: Vec<char> = Vec::new();
            push_range(&mut k, &t, 0, i);
            let plain = chars_of(ACCESS_COOKIE);
            let host = chars_of(ACCESS_COOKIE_HOST);
            if crate::text::chars_eq(&k, &plain) || crate::text::chars_eq(&k, &host) {
                let mut v: Vec<char> = Vec::new();
                push_range(&mut v, &t, i + 1, t.len());
                Some(trim_chars(&v))
            } else {
                None
            }
        },
        None => None,
    }
}

/// The access tokens a request offers, in the order they are tried: the
/// `Authorization: Bearer` token, then each access-token cookie value, in
/// cookie order; each trimmed.
pub fn session_token_candidates(authorization: Option<&str>, cookie: Option<&str>) -> (r: Vec<
    String,
>)
    ensures
        string_views(r@) == spec_token_candidates(
            match authorization {
                Some(a) => Some(a@),
                None => None,
            },
            match cookie {
                Some(c) => Some(c@),
                None => None,
            },
        ),
{
    let mut out: Vec<String> = Vec::new();
    let ghost bearer = bearer_token(
        match authorization {
            Some(a) => Some(a@),
            None => None,
        },
    );
    if let Some(h) = authorization {
        let hv = chars_of(h);
        let prefix = chars_of("Bearer ");
        if starts_with_exec(&hv, &prefix) {
            proof {
                reveal_strlit("Bearer ");
            }
            let mut rest: Vec<char> = Vec::new();
            push_range(&mut rest, &hv, 7, hv.len());
            out.push(string_of(&trim_chars(&rest)));
        }
    }
    assert(string_views(out@) =~= bearer);
    if let Some(c) = cookie {
        let cv = chars_of(c);
        let pairs = split_pieces(&cv, ';');
        let ghost ps = split_char(c@, ';');
        let mut i: usize = 0;
        while i < pairs.len()
            invariant
                i <= pairs@.len(),
                views(pairs@) == ps,
                string_views(out@) == bearer + cookie_tokens(ps.take(i as int)),
            decreases pairs.len() - i,
        {
            let ghost before = out@;
            proof {
                assert(ps.take(i + 1).drop_last() =~= ps.take(i as int));
                assert(ps.take(i + 1).last() == pairs@[i as int]@);
            }
            match cookie_token_exec(&pairs[i]) {
                Some(v) => {
                    out.push(string_of(&v));
                    assert(string_views(out@) =~= string_views(before) + seq![v@]);
                },
                None => {},
            }
            i = i + 1;
        }
        proof {
            assert(ps.take(pairs@.len() as int) =~= ps);
        }
    } else {
        assert(bearer + Seq::<Seq<char>>::empty() =~= bearer);
    }
    out
}

// ---------------------------------------------------------------------------
// Deactivation
// ---------------------------------------------------------------------------

/// A membership may be given up when another active admin remains or the
/// user is its only member.
pub open spec fn membership_releasable(other_admins: i64, total_members: i64) -> bool {
    other_admins > 0 || total_members == 1
}

/// Every membership `(other active admins, total members)` is releasable.
pub open spec fn all_releasable(rows: Seq<(i64, i64)>) -> bool {
    forall|i: int| 0 <= i < rows.len() ==> membership_releasable(#[trigger] rows[i].0, rows[i].1)
}

/// Spec of `deactivation_guard`.
pub open spec fn spec_deactivation_guard(
    is_instance_admin: bool,
    projects: Seq<(i64, i64)>,
    workspaces: Seq<(i64, i64)>,
) -> Option<Seq<char>> {
    if is_instance_admin {
        Some(DEACTIVATE_INSTANCE_ADMIN_MSG@)
    } else if !all_releasable(projects) {
        Some(DEACTIVATE_SOLE_PROJECT_ADMIN_MSG@)
    } else if !all_releasable(workspaces) {
        Some(DEACTIVATE_SOLE_WORKSPACE_ADMIN_MSG@)
    } else {
        None
    }
}

fn rows_releasable(rows: &[(i64, i64)]) -> (r: bool)
    ensures
        r == all_releasable(rows@),
{
    let mut i: usize = 0;
    while i < rows.len()
        invariant
            i <= rows@.len(),
            forall|k: int| 0 <= k < i ==> membership_releasable(#[trigger] rows@[k].0, rows@[k].1),
        decreases rows.len() - i,
    {
        let (other, total) = rows[i];
        if !(other > 0 || total == 1) {
            assert(!membership_releasable(rows@[i as int].0, rows@[i as int].1));
            return false;
        }
        i = i + 1;
    }
    true
}

/// May the account be deactivated? Not by an instance admin; not while
/// the user is the sole admin of a project, then of a workspace, that has
/// other members. Each row is one active membership: `(other active
/// admins, total members)`.
pub fn deactivation_guard(
    is_instance_admin: bool,
    projects: &[(i64, i64)],
    workspaces: &[(i64, i64)],
) -> (r: Result<(), String>)
    ensures
        match spec_deactivation_guard(is_instance_admin, projects@, workspaces@) {
            Some(m) => r matches Err(e) && e@ == m,
            None => r is Ok,
        },
{
    if is_instance_admin {
        return Err(DEACTIVATE_INSTANCE_ADMIN_MSG.to_owned());
    }
    if !rows_releasable(projects) {
        return Err(DEACTIVATE_SOLE_PROJECT_ADMIN_MSG.to_owned());
    }
    if !rows_releasable(workspaces) {
        return Err(DEACTIVATE_SOLE_WORKSPACE_ADMIN_MSG.to_owned());
    }
    Ok(())
}

// ---------------------------------------------------------------------------
// Laws
// ---------------------------------------------------------------------------

/// A guarded CSV value never starts a spreadsheet formula, and it ends
/// with the input value unchanged.
pub proof fn law_csv_value_never_starts_formula(v: Seq<char>)
    ensures
        !(spec_sanitize_csv_value(v).len() > 0 && is_formula_lead(spec_sanitize_csv_value(v)[0])),
        spec_sanitize_csv_value(v).len() >= v.len(),
        spec_sanitize_csv_value(v).subrange(
            spec_sanitize_csv_value(v).len() - v.len(),
            spec_sanitize_csv_value(v).len() as int,
        ) == v,
{
    let s = spec_sanitize_csv_value(v);
    if v.len() > 0 && is_formula_lead(v[0]) {
        assert(s[0] == '\'');
        assert(s.subrange(1, s.len() as int) =~= v);
    } else {
        assert(s.subrange(0, s.len() as int) =~= v);
    }
}

/// The activity ordering is always one of the four allowed orderings.
pub proof fn law_activity_order_allowlisted(raw: Option<Seq<char>>)
    ensures
        spec_activity_order(raw) == "created_at"@ || spec_activity_order(raw) == "-created_at"@
            || spec_activity_order(raw) == "updated_at"@ || spec_activity_order(raw)
            == "-updated_at"@,
{
    reveal_strlit("-");
    reveal_strlit("created_at");
    reveal_strlit("updated_at");
    reveal_strlit("-created_at");
    reveal_strlit("-updated_at");
    assert("-"@ + "created_at"@ =~= "-created_at"@);
    assert("-"@ + "updated_at"@ =~= "-updated_at"@);
}

/// `?month=` always yields a month from 1 to 12.
pub proof fn law_month_in_range(raw: Option<Seq<char>>, float_whole: Option<i32>)
    ensures
        1 <= spec_parse_month(raw, float_whole) <= 12,
{
}

/// A CSV line always ends with CRLF.
pub proof fn law_csv_line_ends_with_crlf(row: Seq<Seq<char>>)
    ensures
        spec_csv_line(row).len() >= 2,
        spec_csv_line(row).subrange(spec_csv_line(row).len() - 2, spec_csv_line(row).len() as int)
            == seq!['\r', '\n'],
{
    let s = spec_csv_line(row);
    assert(s.subrange(s.len() - 2, s.len() as int) =~= seq!['\r', '\n']);
}


/// Whether `k` is a key the profile patch reads.
pub open spec fn profile_key(k: Seq<char>) -> bool {
    ||| exists|i: int| 0 <= i < PROFILE_JSON_KEYS@.len() && #[trigger] PROFILE_JSON_KEYS@[i]@ == k
    ||| exists|i: int| 0 <= i < PROFILE_BOOL_KEYS@.len() && #[trigger] PROFILE_BOOL_KEYS@[i]@ == k
    ||| exists|i: int| 0 <= i < PROFILE_TEXT_KEYS@.len() && #[trigger] PROFILE_TEXT_KEYS@[i]@ == k
    ||| k == WEEK_START_KEY@
    ||| k == LAST_WORKSPACE_KEY@
}

proof fn lemma_lookup_skips(
    a: Seq<(String, ProfileField)>,
    e: (String, ProfileField),
    b: Seq<(String, ProfileField)>,
    k: Seq<char>,
)
    requires
        e.0@ != k,
    ensures
        lookup(a + seq![e] + b, k) == lookup(a + b, k),
    decreases a.len(),
{
    if a.len() == 0 {
        assert(a + seq![e] + b =~= seq![e] + b);
        assert((seq![e] + b).drop_first() =~= b);
        assert(a + b =~= b);
    } else {
        lemma_lookup_skips(a.drop_first(), e, b, k);
        assert((a + seq![e] + b).drop_first() =~= a.drop_first() + seq![e] + b);
        assert((a + b).drop_first() =~= a.drop_first() + b);
    }
}

proof fn lemma_keyed_writes_agree(
    x: Seq<(String, ProfileField)>,
    y: Seq<(String, ProfileField)>,
    keys: Seq<&str>,
    kind: int,
)
    requires
        forall|i: int| 0 <= i < keys.len() ==> lookup(x, #[trigger] keys[i]@) == lookup(y, keys[i]@),
    ensures
        keyed_writes(x, keys, kind) == keyed_writes(y, keys, kind),
    decreases keys.len(),
{
    if keys.len() > 0 {
        let k = keys.drop_last();
        assert forall|i: int| 0 <= i < k.len() implies lookup(x, #[trigger] k[i]@) == lookup(
            y,
            k[i]@,
        ) by {
            assert(k[i] == keys[i]);
        }
        lemma_keyed_writes_agree(x, y, k, kind);
        assert(keys.last() == keys[keys.len() - 1]);
    }
}

/// A body entry whose key the profile patch does not read (such as `user`
/// or `user_id`) changes none of the writes, wherever it stands.
pub proof fn law_unread_keys_ignored(
    a: Seq<(String, ProfileField)>,
    e: (String, ProfileField),
    b: Seq<(String, ProfileField)>,
)
    requires
        !profile_key(e.0@),
    ensures
        spec_profile_writes(a + seq![e] + b) == spec_profile_writes(a + b),
{
    let x = a + seq![e] + b;
    let y = a + b;
    assert forall|i: int| 0 <= i < PROFILE_JSON_KEYS@.len() implies lookup(
        x,
        #[trigger] PROFILE_JSON_KEYS@[i]@,
    ) == lookup(y, PROFILE_JSON_KEYS@[i]@) by {
        lemma_lookup_skips(a, e, b, PROFILE_JSON_KEYS@[i]@);
    }
    assert forall|i: int| 0 <= i < PROFILE_BOOL_KEYS@.len() implies lookup(
        x,
        #[trigger] PROFILE_BOOL_KEYS@[i]@,
    ) == lookup(y, PROFILE_BOOL_KEYS@[i]@) by {
        lemma_lookup_skips(a, e, b, PROFILE_BOOL_KEYS@[i]@);
    }
    assert forall|i: int| 0 <= i < PROFILE_TEXT_KEYS@.len() implies lookup(
        x,
        #[trigger] PROFILE_TEXT_KEYS@[i]@,
    ) == lookup(y, PROFILE_TEXT_KEYS@[i]@) by {
        lemma_lookup_skips(a, e, b, PROFILE_TEXT_KEYS@[i]@);
    }
    lemma_keyed_writes_agree(x, y, PROFILE_JSON_KEYS@, 0);
    lemma_keyed_writes_agree(x, y, PROFILE_BOOL_KEYS@, 1);
    lemma_keyed_writes_agree(x, y, PROFILE_TEXT_KEYS@, 2);
    lemma_lookup_skips(a, e, b, WEEK_START_KEY@);
    lemma_lookup_skips(a, e, b, LAST_WORKSPACE_KEY@);
}

} // verus!

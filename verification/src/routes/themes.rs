//! Workspace theme rules: the role gate and the name check.
use vstd::prelude::*;

use crate::body::FieldValue;
use crate::routes::project::FORBIDDEN_MSG;

verus! {

broadcast use vstd::string::group_string_axioms;

/// Workspace admin (20) or member (15); guests and non-members are denied.
pub fn theme_gate(role: Option<i16>) -> (r: Result<(), String>)
    ensures
        r is Ok <==> (role == Some(20i16) || role == Some(15i16)),
        r matches Err(e) ==> e@ == FORBIDDEN_MSG@,
{
    match role {
        Some(20) | Some(15) => Ok(()),
        _ => Err(FORBIDDEN_MSG.to_owned()),
    }
}


/// A missing required field.
pub const FIELD_REQUIRED_MSG: &'static str = "This field is required.";

/// A `null` field.
pub const FIELD_NULL_MSG: &'static str = "This field may not be null.";

/// An empty name.
pub const FIELD_BLANK_MSG: &'static str = "This field may not be blank.";

/// A name over 300 characters.
pub const NAME_TOO_LONG_MSG: &'static str = "Ensure this field has no more than 300 characters.";

/// A name that is not a string.
pub const NOT_A_STRING_MSG: &'static str = "Not a valid string.";

/// The error for a theme name, if any.
pub open spec fn theme_name_error(v: FieldValue) -> Option<Seq<char>> {
    match v {
        FieldValue::Missing => Some(FIELD_REQUIRED_MSG@),
        FieldValue::Null => Some(FIELD_NULL_MSG@),
        FieldValue::Text(s) => if s@.len() == 0 {
            Some(FIELD_BLANK_MSG@)
        } else if s@.len() > 300 {
            Some(NAME_TOO_LONG_MSG@)
        } else {
            None
        },
        FieldValue::Other => Some(NOT_A_STRING_MSG@),
    }
}

/// Checks a theme name: required, not null, a string, not empty, at most
/// 300 characters; gives the name, or the message for the `name` key.
pub fn check_theme_name(v: &FieldValue) -> (r: Result<String, String>)
    ensures
        match theme_name_error(*v) {
            Some(m) => r matches Err(e) && e@ == m,
            None => r matches Ok(n) && v matches FieldValue::Text(s) && n@ == s@,
        },
{
    match v {
        FieldValue::Missing => Err(FIELD_REQUIRED_MSG.to_owned()),
        FieldValue::Null => Err(FIELD_NULL_MSG.to_owned()),
        FieldValue::Text(s) => {
            let n = s.unicode_len();
            if n == 0 {
                Err(FIELD_BLANK_MSG.to_owned())
            } else if n > 300 {
                Err(NAME_TOO_LONG_MSG.to_owned())
            } else {
                Ok(s.as_str().to_owned())
            }
        },
        FieldValue::Other => Err(NOT_A_STRING_MSG.to_owned()),
    }
}

} // verus!

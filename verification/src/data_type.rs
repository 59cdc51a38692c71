//! Reading a field of a given type from its text.
use crate::pipe::{DataField, FieldValue};
use crate::sql::{int_text_value, sql_integer};
use crate::text::{chars_of, matches_at};
use vstd::prelude::*;

verus! {

/// The field types whose text the library reads itself: characters, symbols,
/// decimal integers and booleans.
#[derive(Clone, Copy, Debug, PartialEq, Eq, Structural)]
pub enum TextType {
    Chars,
    Symbol,
    Digit,
    Bool,
}

/// Why a field could not be made from its text.
#[derive(Debug)]
pub enum ModelError {
    /// The text is not a value of the type; the message says why.
    Parse(String),
}

/// The `i64` that `s` writes in decimal, as `str::parse::<i64>` reads it: an
/// optional sign and one or more ASCII digits, within the range of `i64`.
pub open spec fn i64_text(s: Seq<char>) -> Option<i64> {
    match int_text_value(s) {
        Some(v) => if i64::MIN <= v <= i64::MAX {
            Some(v as i64)
        } else {
            None
        },
        None => None,
    }
}

/// The boolean that `s` names: exactly `true` or `false`.
pub open spec fn bool_text(s: Seq<char>) -> Option<bool> {
    if s == "true"@ {
        Some(true)
    } else if s == "false"@ {
        Some(false)
    } else {
        None
    }
}

/// The message of the error that `str::parse::<i64>` gives on `s`.
pub uninterp spec fn int_parse_message(s: Seq<char>) -> Seq<char>;

/// The message of the error that `str::parse::<bool>` gives on `s`.
pub uninterp spec fn bool_parse_message(s: Seq<char>) -> Seq<char>;

/// Calls `str::parse::<i64>` on a text that its documentation refuses (anything
/// but an optional sign and digits, or a value out of range) for the message of
/// the error; the message is named `int_parse_message`, its wording is not
/// restated.
#[verifier::external_body]
fn int_parse_error(s: &str) -> (m: String)
    requires
        i64_text(s@) is None,
    ensures
        m@ == int_parse_message(s@),
{
    match s.parse::<i64>() {
        Err(e) => e.to_string(),
        Ok(_) => String::new(),
    }
}

/// Calls `str::parse::<bool>` on a text other than `true` and `false`, which its
/// documentation refuses, for the message of the error; the message is named
/// `bool_parse_message`, its wording is not restated.
#[verifier::external_body]
fn bool_parse_error(s: &str) -> (m: String)
    requires
        bool_text(s@) is None,
    ensures
        m@ == bool_parse_message(s@),
{
    match s.parse::<bool>() {
        Err(e) => e.to_string(),
        Ok(_) => String::new(),
    }
}

/// The boolean that `s` names, if it is `true` or `false`.
fn read_bool(s: &str) -> (r: Option<bool>)
    ensures
        r == bool_text(s@),
{
    let cs = chars_of(s);
    let t = chars_of("true");
    let f = chars_of("false");
    if cs.len() == t.len() && matches_at(cs.as_slice(), 0, t.as_slice()) {
        assert(cs@.subrange(0, t@.len() as int) =~= cs@);
        Some(true)
    } else if cs.len() == f.len() && matches_at(cs.as_slice(), 0, f.as_slice()) {
        assert(cs@.subrange(0, f@.len() as int) =~= cs@);
        Some(false)
    } else {
        proof {
            if s@ == "true"@ {
                assert(cs@.subrange(0, t@.len() as int) =~= cs@);
            }
            if s@ == "false"@ {
                assert(cs@.subrange(0, f@.len() as int) =~= cs@);
            }
        }
        None
    }
}

/// The value that the text `value` gives when read as `meta`, or the error
/// message when it is not a value of that type.
pub open spec fn text_field(meta: TextType, value: Seq<char>) -> Result<
    crate::pipe::FieldValueView,
    Seq<char>,
> {
    match meta {
        TextType::Chars => Ok(crate::pipe::FieldValueView::Chars(value)),
        TextType::Symbol => Ok(crate::pipe::FieldValueView::Symbol(value)),
        TextType::Digit => match i64_text(value) {
            Some(v) => Ok(crate::pipe::FieldValueView::Digit(v)),
            None => Err(int_parse_message(value)),
        },
        TextType::Bool => match bool_text(value) {
            Some(b) => Ok(crate::pipe::FieldValueView::Bool(b)),
            None => Err(bool_parse_message(value)),
        },
    }
}

impl DataField {
    /// Builds the field `name` from the text `value` read as `meta`: characters
    /// and symbols keep the text, a digit field reads a decimal `i64`, a boolean
    /// field reads `true` or `false`; any other text of those two types is a
    /// parse error.
    pub fn from_str(meta: TextType, name: String, value: String) -> (r: Result<
        DataField,
        ModelError,
    >)
        ensures
            match text_field(meta, value@) {
                Ok(v) => r matches Ok(d) && d.name@ == name@ && d.value@ == v,
                Err(m) => r matches Err(ModelError::Parse(e)) && e@ == m,
            },
    {
        match meta {
            TextType::Chars => Ok(DataField { name, value: FieldValue::Chars(value) }),
            TextType::Symbol => Ok(DataField { name, value: FieldValue::Symbol(value) }),
            TextType::Digit => match sql_integer(value.as_str()) {
                Some(v) => Ok(DataField { name, value: FieldValue::Digit(v) }),
                None => Err(ModelError::Parse(int_parse_error(value.as_str()))),
            },
            TextType::Bool => match read_bool(value.as_str()) {
                Some(b) => Ok(DataField { name, value: FieldValue::Bool(b) }),
                None => Err(ModelError::Parse(bool_parse_error(value.as_str()))),
            },
        }
    }
}

} // verus!

//! Field parsers that read a whole encoded value from the input: an exact JSON
//! document, and a Base64 text up to the field's separator.
use serde_json::Value;
use vstd::prelude::*;
use vstd::utf8::encode_utf8;
use crate::codec::{base64_standard_decode, base64_standard_decoded};
use crate::encoding::{utf8_lossy, utf8_lossy_chars};
use crate::json::{fields_view, flat_end_text, flat_value, JsonNumber, JsonProc, JsonValue};
use crate::pipe::DataField;
use crate::sep::{read_until_spec, WplSep};
use crate::text::{ParseFail, WResult};
use crate::utils::{lemma_space_len, skip_multispace, space_len};

verus! {

/// A value as `serde_json` holds it.
#[verifier::external_type_specification]
#[verifier::external_body]
pub struct ExJsonDocument(Value);

/// The JSON value that opens `text` as `serde_json` reads it (from a reader,
/// without asking for the end of the input), and the text after it.
pub uninterp spec fn json_document_prefix(text: Seq<char>) -> Option<(JsonValue, Seq<char>)>;

/// Converts a value that `serde_json` read into the library's form, variant for
/// variant: a string keeps its serialised text, a number is an integer where
/// `serde_json` holds one and the bits of its double otherwise, arrays and
/// objects keep their order.
#[verifier::external_body]
fn json_of(v: &Value) -> JsonValue {
    match v {
        Value::Null => JsonValue::Null,
        Value::Bool(b) => JsonValue::Bool(*b),
        Value::Number(n) => JsonValue::Number(match (n.as_u64(), n.as_i64()) {
            (Some(u), _) => JsonNumber::PosInt(u),
            (None, Some(i)) => JsonNumber::NegInt(i),
            _ => JsonNumber::Float(n.as_f64().unwrap_or_default().to_bits()),
        }),
        Value::String(_) => JsonValue::Str(v.to_string()),
        Value::Array(a) => JsonValue::Array(a.iter().map(json_of).collect()),
        Value::Object(o) => JsonValue::Object(o.iter().map(|(k, x)| (k.clone(), json_of(x))).collect())
    }
}

/// Calls `serde_json::Value::deserialize` on a reader over `text`. Its outcome
/// is named `json_document_prefix`: the value read and the text after the last
/// byte the reader took; `None` where no value opens `text`, or where that byte
/// does not end a character.
#[verifier::external_body]
fn json_value_prefix(text: &str) -> (r: Option<(JsonValue, &str)>)
    ensures
        match r {
            Some((v, rest)) => json_document_prefix(text@) == Some((v, rest@)),
            None => json_document_prefix(text@) is None,
        },
{
    let mut cursor = std::io::Cursor::new(text.as_bytes());
    let mut de = serde_json::Deserializer::from_reader(&mut cursor);
    match <Value as serde::Deserialize>::deserialize(&mut de) {
        Ok(v) => text.get(cursor.position() as usize..).map(|rest| (json_of(&v), rest)),
        Err(_) => None,
    }
}

/// Reads one JSON document after leading spaces and flattens it under `name`
/// in exact mode. On success the input holds what follows the document; on a
/// failure it holds the document, the spaces taken, and `out` keeps the fields
/// pushed before the failure.
pub fn exact_json_parse(data: &mut &str, name: &str, out: &mut Vec<DataField>, max_depth: usize) -> (r:
    WResult<()>)
    requires
        max_depth < usize::MAX - 1,
    ensures
        ({
            let rest = old(data)@.skip(space_len(old(data)@));
            match json_document_prefix(rest) {
                Some((v, after)) => {
                    let f = flat_value(Seq::empty(), v, name@, true, 0, max_depth as nat);
                    &&& final(out)@.len() >= old(out)@.len()
                    &&& final(out)@.subrange(0, old(out)@.len() as int) == old(out)@
                    &&& fields_view(final(out)@) == fields_view(old(out)@) + f.0
                    &&& (r is Ok <==> f.1 is Done)
                    &&& r is Ok ==> final(data)@ == after
                    &&& r matches Err(e) ==> final(data)@ == rest && e.context@ == flat_end_text(
                        f.1,
                    )
                },
                None => r matches Err(e) && e.context@.len() == 0 && final(out)@ == old(out)@
                    && final(data)@ == rest,
            }
        }),
{
    let sp = skip_multispace(data);
    proof {
        lemma_space_len(old(data)@, sp@.len() as int);
        reveal_strlit("");
    }
    match json_value_prefix(*data) {
        Some((v, after)) => match JsonProc::proc_value("", &v, name, true, out, max_depth) {
            Ok(()) => {
                *data = after;
                Ok(())
            },
            Err(e) => Err(e),
        },
        None => Err(ParseFail::expected("")),
    }
}

/// Reads the text up to the separator `sep` (as `read_until_sep` does) and
/// decodes it as standard Base64; the decoded bytes are made text with invalid
/// UTF-8 replaced. Text that is not Base64 is an error, the read text consumed.
pub fn parse_base64_field(sep: &WplSep, data: &mut &str) -> (r: WResult<String>)
    ensures
        match read_until_spec(sep@, old(data)@) {
            Some((b, e, n)) => final(data)@ == old(data)@.skip(n) && match base64_standard_decoded(
                encode_utf8(old(data)@.subrange(b, e)),
            ) {
                Some(bytes) => r matches Ok(v) && v@ == utf8_lossy_chars(bytes),
                None => r matches Err(x) && x.context@ == "base64 decode error"@,
            },
            None => r is Err,
        },
{
    let take = sep.read_until_sep(data)?;
    match base64_standard_decode(take.as_str().as_bytes()) {
        Some(bytes) => Ok(utf8_lossy(bytes.as_slice())),
        None => Err(ParseFail::expected("base64 decode error")),
    }
}

} // verus!

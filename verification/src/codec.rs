//! Decoders that the field pipes call: JSON string literals and standard Base64.
use base64::Engine;
use vstd::prelude::*;

verus! {

/// The text that `doc` denotes when `doc` is a JSON document made of one string literal.
pub uninterp spec fn json_string_value(doc: Seq<char>) -> Option<Seq<char>>;

/// Calls `serde_json::from_str::<String>`. Its outcome is named `json_string_value`:
/// the decoded string when `doc` is one JSON string literal (escapes resolved),
/// nothing otherwise. The JSON grammar itself is not restated here.
#[verifier::external_body]
pub(crate) fn json_string_from(doc: &str) -> (r: Option<String>)
    ensures
        match r {
            Some(s) => json_string_value(doc@) == Some(s@),
            None => json_string_value(doc@) is None,
        },
{
    serde_json::from_str::<String>(doc).ok()
}

/// The bytes that `input` encodes in standard, padded Base64 (RFC 4648 alphabet),
/// when it is such an encoding.
pub uninterp spec fn base64_standard_decoded(input: Seq<u8>) -> Option<Seq<u8>>;

/// Calls `base64::engine::general_purpose::STANDARD.decode`. Its outcome is named
/// `base64_standard_decoded`; which inputs the engine accepts (padding, trailing
/// bits) is left to that name.
#[verifier::external_body]
pub(crate) fn base64_standard_decode(input: &[u8]) -> (r: Option<Vec<u8>>)
    ensures
        match r {
            Some(b) => base64_standard_decoded(input@) == Some(b@),
            None => base64_standard_decoded(input@) is None,
        },
{
    base64::engine::general_purpose::STANDARD.decode(input).ok()
}

} // verus!

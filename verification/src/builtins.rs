//! Whole-input preprocessors: Base64 decoding of the raw data before parsing.
use std::sync::Arc;
use vstd::prelude::*;
use crate::codec::{base64_standard_decode, base64_standard_decoded};
use crate::encoding::str_from_utf8;
use vstd::utf8::{decode_utf8, encode_utf8, valid_utf8};
use vstd::string::StringSliceAdditionalSpecFns;

verus! {

/// Raw input as it reaches a preprocessor.
#[derive(Debug)]
pub enum RawData {
    String(String),
    Bytes(Vec<u8>),
    ArcBytes(Arc<Vec<u8>>),
}

/// The contents of raw input, by container kind.
pub enum RawDataView {
    Text(Seq<char>),
    Bytes(Seq<u8>),
    ArcBytes(Seq<u8>),
}

impl View for RawData {
    type V = RawDataView;

    open spec fn view(&self) -> RawDataView {
        match self {
            RawData::String(s) => RawDataView::Text(s@),
            RawData::Bytes(b) => RawDataView::Bytes(b@),
            RawData::ArcBytes(b) => RawDataView::ArcBytes((**b)@),
        }
    }
}

/// Why Base64 preprocessing refused its input.
#[derive(Debug, PartialEq, Eq, Structural)]
pub enum Base64ProcError {
    /// The input is not standard Base64.
    InvalidBase64,
}

/// What Base64 preprocessing makes of `d`: the decoded contents in the same kind
/// of container, except that text decoding to bytes that are not UTF-8 gives
/// those bytes.
pub open spec fn base64_processed(d: RawDataView) -> Result<RawDataView, Base64ProcError> {
    match d {
        RawDataView::Text(s) => match base64_standard_decoded(encode_utf8(s)) {
            Some(b) => if valid_utf8(b) {
                Ok(RawDataView::Text(decode_utf8(b)))
            } else {
                Ok(RawDataView::Bytes(b))
            },
            None => Err(Base64ProcError::InvalidBase64),
        },
        RawDataView::Bytes(b) => match base64_standard_decoded(b) {
            Some(out) => Ok(RawDataView::Bytes(out)),
            None => Err(Base64ProcError::InvalidBase64),
        },
        RawDataView::ArcBytes(b) => match base64_standard_decoded(b) {
            Some(out) => Ok(RawDataView::ArcBytes(out)),
            None => Err(Base64ProcError::InvalidBase64),
        },
    }
}

/// Decodes Base64 input, keeping its container kind.
#[derive(Debug)]
pub struct Base64Proc;

impl Base64Proc {
    /// Decodes Base64 data, keeping the container kind; text that does not
    /// decode to UTF-8 comes back as bytes.
    pub fn process(&self, data: RawData) -> (r: Result<RawData, Base64ProcError>)
        ensures
            match r {
                Ok(out) => base64_processed(data@) == Ok::<RawDataView, Base64ProcError>(out@),
                Err(e) => base64_processed(data@) == Err::<RawDataView, Base64ProcError>(e),
            },
    {
        match data {
            RawData::String(s) => {
                match base64_standard_decode(s.as_str().as_bytes()) {
                    Some(decoded) => match str_from_utf8(decoded.as_slice()) {
                        Some(text) => Ok(RawData::String(text.to_owned())),
                        None => Ok(RawData::Bytes(decoded)),
                    },
                    None => Err(Base64ProcError::InvalidBase64),
                }
            },
            RawData::Bytes(b) => match base64_standard_decode(b.as_slice()) {
                Some(decoded) => Ok(RawData::Bytes(decoded)),
                None => Err(Base64ProcError::InvalidBase64),
            },
            RawData::ArcBytes(b) => {
                let inner: &Vec<u8> = &*b;
                match base64_standard_decode(inner.as_slice()) {
                    Some(decoded) => Ok(RawData::ArcBytes(Arc::new(decoded))),
                    None => Err(Base64ProcError::InvalidBase64),
                }
            },
        }
    }

    /// The preprocessor's name.
    pub fn name(&self) -> (r: &'static str)
        ensures
            r@ == "decode/base64"@,
    {
        proof {
            reveal_strlit("decode/base64");
        }
        "decode/base64"
    }
}

/// Base64 preprocessing keeps the kind of its input: bytes stay bytes, shared
/// bytes stay shared bytes, and text stays text exactly when it decodes to UTF-8.
pub proof fn law_base64_keeps_container(d: RawDataView)
    ensures
        base64_processed(d) matches Ok(out) ==> match d {
            RawDataView::Text(s) => (out is Text) == valid_utf8(
                base64_standard_decoded(encode_utf8(s)).unwrap(),
            ) && (out is Text || out is Bytes),
            RawDataView::Bytes(_) => out is Bytes,
            RawDataView::ArcBytes(_) => out is ArcBytes,
        },
{
}

} // verus!

//! UTF-8 facts and conversions between characters and bytes.
use vstd::prelude::*;
use vstd::utf8::{decode_utf8, encode_scalar, encode_utf8, valid_utf8};

verus! {

broadcast use vstd::utf8::group_utf8_lib;

/// The UTF-8 encoding of a concatenation is the concatenation of the encodings.
pub proof fn lemma_encode_utf8_concat(a: Seq<char>, b: Seq<char>)
    ensures
        encode_utf8(a + b) == encode_utf8(a) + encode_utf8(b),
    decreases a.len(),
{
    if a.len() == 0 {
        assert(a + b =~= b);
        assert(encode_utf8(a) =~= Seq::<u8>::empty());
        assert(encode_utf8(a) + encode_utf8(b) =~= encode_utf8(b));
    } else {
        lemma_encode_utf8_concat(a.drop_first(), b);
        assert((a + b).drop_first() =~= a.drop_first() + b);
        assert((a + b)[0] == a[0]);
        assert(encode_utf8(a + b) == encode_scalar(a[0] as u32) + encode_utf8(a.drop_first() + b));
        assert(encode_utf8(a + b) =~= encode_utf8(a) + encode_utf8(b));
    }
}

/// The encoding of a single character.
pub proof fn lemma_encode_utf8_single(c: char)
    ensures
        encode_utf8(seq![c]) == encode_scalar(c as u32),
{
    assert(seq![c].drop_first() =~= Seq::<char>::empty());
    assert(encode_utf8(seq![c]) =~= encode_scalar(c as u32) + encode_utf8(Seq::<char>::empty()));
}

/// Number of bytes in the UTF-8 encoding of `c`.
pub fn utf8_width(c: char) -> (w: usize)
    ensures
        w == encode_scalar(c as u32).len(),
        1 <= w <= 4,
{
    let v = c as u32;
    if v <= 0x7F {
        1
    } else if v <= 0x7FF {
        2
    } else if v <= 0xFFFF {
        3
    } else {
        4
    }
}

/// The UTF-8 bytes of `c`.
pub fn encode_char(c: char) -> (r: Vec<u8>)
    ensures
        r@ == encode_scalar(c as u32),
{
    let v = c as u32;
    let mut r: Vec<u8> = Vec::new();
    if v <= 0x7F {
        r.push((v & 0x7F) as u8);
    } else if v <= 0x7FF {
        r.push(0xC0 | ((v >> 6) & 0x1F) as u8);
        r.push(0x80 | (v & 0x3F) as u8);
    } else if v <= 0xFFFF {
        r.push(0xE0 | ((v >> 12) & 0x0F) as u8);
        r.push(0x80 | ((v >> 6) & 0x3F) as u8);
        r.push(0x80 | (v & 0x3F) as u8);
    } else {
        r.push(0xF0 | ((v >> 18) & 0x7) as u8);
        r.push(0x80 | ((v >> 12) & 0x3F) as u8);
        r.push(0x80 | ((v >> 6) & 0x3F) as u8);
        r.push(0x80 | (v & 0x3F) as u8);
    }
    assert(r@ =~= encode_scalar(c as u32));
    r
}

/// Appends `b` to `out`.
pub fn push_bytes(out: &mut Vec<u8>, b: &[u8])
    ensures
        final(out)@ == old(out)@ + b@,
{
    let mut i: usize = 0;
    while i < b.len()
        invariant
            i <= b@.len(),
            out@ == old(out)@ + b@.take(i as int),
        decreases b.len() - i,
    {
        out.push(b[i]);
        i = i + 1;
        assert(out@ =~= old(out)@ + b@.take(i as int));
    }
    assert(b@.take(b@.len() as int) =~= b@);
}

/// What `String::from_utf8_lossy` makes of `bytes`.
pub uninterp spec fn utf8_lossy_chars(bytes: Seq<u8>) -> Seq<char>;

/// Calls `String::from_utf8_lossy`. Its result is named `utf8_lossy_chars`; on
/// valid UTF-8 it is the decoded text, and invalid sequences are replaced by
/// U+FFFD, as the standard library documents. Every character of the result
/// stands for at least one byte, so it has no more characters than there are
/// bytes. Which bytes one U+FFFD stands for is not stated.
#[verifier::external_body]
pub(crate) fn utf8_lossy(bytes: &[u8]) -> (r: String)
    ensures
        r@ == utf8_lossy_chars(bytes@),
        valid_utf8(bytes@) ==> r@ == decode_utf8(bytes@),
        !valid_utf8(bytes@) ==> r@.contains('\u{FFFD}'),
        r@.len() <= bytes@.len(),
{
    String::from_utf8_lossy(bytes).to_string()
}

/// Calls `std::str::from_utf8`: text exactly when the bytes are valid UTF-8.
#[verifier::external_body]
pub(crate) fn str_from_utf8(bytes: &[u8]) -> (r: Option<&str>)
    ensures
        r is Some <==> valid_utf8(bytes@),
        r matches Some(s) ==> s@ == decode_utf8(bytes@),
{
    std::str::from_utf8(bytes).ok()
}

/// Calls `String::from_utf8`: text exactly when the bytes are valid UTF-8.
#[verifier::external_body]
pub(crate) fn string_from_utf8(bytes: Vec<u8>) -> (r: Option<String>)
    ensures
        r is Some <==> valid_utf8(bytes@),
        r matches Some(s) ==> s@ == decode_utf8(bytes@),
{
    String::from_utf8(bytes).ok()
}

} // verus!

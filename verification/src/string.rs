//! String literals of WPL: quoted, raw and plain-quoted strings, and the
//! decoding of the escapes they may hold.
use vstd::prelude::*;
use vstd::utf8::{decode_utf8, encode_scalar, encode_utf8, valid_utf8};
use crate::chars::{hex_digit, hex_value};
use crate::encoding::{
    encode_char, lemma_encode_utf8_concat, lemma_encode_utf8_single, push_bytes, utf8_lossy,
    utf8_lossy_chars,
};
use crate::text::{chars_of, WResult};
use crate::utils::{
    delimited_end, escaped_end, find_quote_end, inner_taken, law_raw_string_read_whole,
    quot_r_str, quot_str_impl, raw_string_span, span_taken, window_path, EscapeSet,
};
use crate::sep::{read_until_spec, sep_is_end, WplSepView};
use crate::text::{occurs_at, starts_with};

verus! {

broadcast use vstd::utf8::group_utf8_lib;

/// The bytes that escape decoding produces from `s`: `\" \\ \n \t \r` become
/// the character they name, `\xHH` (two hex digits) becomes the byte `0xHH`, a
/// `\x` without two hex digits stays as written, `\` before any other character
/// stays together with it, a lone `\` at the end is dropped, and every other
/// character is copied as its UTF-8 bytes.
pub open spec fn unescaped_bytes(s: Seq<char>) -> Seq<u8>
    decreases s.len(),
{
    if s.len() == 0 {
        Seq::empty()
    } else if s[0] != '\\' {
        encode_scalar(s[0] as u32) + unescaped_bytes(s.skip(1))
    } else if s.len() == 1 {
        Seq::empty()
    } else {
        let n = s[1];
        if n == '"' {
            seq![0x22u8] + unescaped_bytes(s.skip(2))
        } else if n == '\\' {
            seq![0x5cu8] + unescaped_bytes(s.skip(2))
        } else if n == 'n' {
            seq![0x0au8] + unescaped_bytes(s.skip(2))
        } else if n == 't' {
            seq![0x09u8] + unescaped_bytes(s.skip(2))
        } else if n == 'r' {
            seq![0x0du8] + unescaped_bytes(s.skip(2))
        } else if n == 'x' {
            if s.len() >= 4 {
                match (hex_value(s[2]), hex_value(s[3])) {
                    (Some(a), Some(b)) => seq![(a * 16 + b) as u8] + unescaped_bytes(s.skip(4)),
                    _ => seq![0x5cu8, 0x78u8] + encode_scalar(s[2] as u32) + encode_scalar(
                        s[3] as u32,
                    ) + unescaped_bytes(s.skip(4)),
                }
            } else if s.len() == 3 {
                seq![0x5cu8, 0x78u8] + encode_scalar(s[2] as u32)
            } else {
                seq![0x5cu8, 0x78u8]
            }
        } else {
            seq![0x5cu8] + encode_scalar(n as u32) + unescaped_bytes(s.skip(2))
        }
    }
}

/// `s` holds no backslash.
pub open spec fn no_backslash(s: Seq<char>) -> bool {
    forall|i: int| 0 <= i < s.len() ==> s[i] != '\\'
}

/// Without backslashes, escape decoding is plain UTF-8 encoding.
pub proof fn lemma_unescaped_plain(s: Seq<char>)
    requires
        no_backslash(s),
    ensures
        unescaped_bytes(s) == encode_utf8(s),
    decreases s.len(),
{
    if s.len() > 0 {
        lemma_unescaped_plain(s.skip(1));
        assert(s.skip(1) =~= s.drop_first());
    }
}

/// The escape of one character: `\\`, `"`, line feed, tab and carriage return
/// are written `\\\\ \\" \\n \\t \\r`; every other character is itself.
pub open spec fn escape_char(c: char) -> Seq<char> {
    if c == '\\' {
        seq!['\\', '\\']
    } else if c == '"' {
        seq!['\\', '"']
    } else if c == '\n' {
        seq!['\\', 'n']
    } else if c == '\t' {
        seq!['\\', 't']
    } else if c == '\r' {
        seq!['\\', 'r']
    } else {
        seq![c]
    }
}

/// `s` with each character escaped.
pub open spec fn escaped(s: Seq<char>) -> Seq<char>
    decreases s.len(),
{
    if s.len() == 0 {
        Seq::empty()
    } else {
        escape_char(s[0]) + escaped(s.drop_first())
    }
}

proof fn lemma_unescape_escaped(s: Seq<char>)
    ensures
        unescaped_bytes(escaped(s)) == encode_utf8(s),
    decreases s.len(),
{
    if s.len() > 0 {
        lemma_unescape_escaped(s.drop_first());
        let c = s[0];
        let e = escape_char(c);
        let t = escaped(s.drop_first());
        let w = e + t;
        assert(escaped(s) == w);
        assert(encode_utf8(s) == encode_scalar(c as u32) + encode_utf8(s.drop_first()));
        if e.len() == 1 {
            assert(w[0] == c);
            assert(w.skip(1) =~= t);
            assert(unescaped_bytes(w) == encode_scalar(c as u32) + unescaped_bytes(t));
        } else {
            assert(w[0] == '\\');
            assert(w[1] == e[1]);
            assert(w.skip(2) =~= t);
            if c == '\\' {
                let v = c as u32;
                assert(v == 0x5c);
                assert((v & 0x7F) as u8 == 0x5cu8) by (bit_vector)
                    requires
                        v == 0x5c,
                ;
                assert(encode_scalar(c as u32) =~= seq![0x5cu8]);
            } else if c == '"' {
                let v = c as u32;
                assert(v == 0x22);
                assert((v & 0x7F) as u8 == 0x22u8) by (bit_vector)
                    requires
                        v == 0x22,
                ;
                assert(encode_scalar(c as u32) =~= seq![0x22u8]);
            } else if c == '\n' {
                let v = c as u32;
                assert(v == 0x0a);
                assert((v & 0x7F) as u8 == 0x0au8) by (bit_vector)
                    requires
                        v == 0x0a,
                ;
                assert(encode_scalar(c as u32) =~= seq![0x0au8]);
            } else if c == '\t' {
                let v = c as u32;
                assert(v == 0x09);
                assert((v & 0x7F) as u8 == 0x09u8) by (bit_vector)
                    requires
                        v == 0x09,
                ;
                assert(encode_scalar(c as u32) =~= seq![0x09u8]);
            } else {
                let v = c as u32;
                assert(v == 0x0d);
                assert((v & 0x7F) as u8 == 0x0du8) by (bit_vector)
                    requires
                        v == 0x0d,
                ;
                assert(encode_scalar(c as u32) =~= seq![0x0du8]);
            }
        }
    } else {
        assert(escaped(s) =~= Seq::<char>::empty());
    }
}

/// Escaping a text and decoding the escapes gives the text back.
pub proof fn law_escape_round_trip(s: Seq<char>)
    ensures
        valid_utf8(unescaped_bytes(escaped(s))),
        decode_utf8(unescaped_bytes(escaped(s))) == s,
{
    lemma_unescape_escaped(s);
    vstd::utf8::encode_utf8_valid_utf8(s);
    vstd::utf8::encode_utf8_decode_utf8(s);
}

/// The UTF-8 encoding of `s` splits after its first `k` characters, and those
/// take at least `k` bytes.
proof fn lemma_encode_split(s: Seq<char>, k: int)
    requires
        0 <= k <= s.len(),
    ensures
        encode_utf8(s) == encode_utf8(s.take(k)) + encode_utf8(s.skip(k)),
        encode_utf8(s.take(k)).len() >= k,
    decreases k,
{
    lemma_encode_utf8_concat(s.take(k), s.skip(k));
    assert(s.take(k) + s.skip(k) =~= s);
    if k > 0 {
        let t = s.take(k);
        lemma_encode_split(t, k - 1);
        assert(t.take(k - 1) =~= s.take(k - 1));
        assert(t.skip(k - 1) =~= seq![s[k - 1]]);
        lemma_encode_utf8_single(s[k - 1]);
        assert(encode_scalar(s[k - 1] as u32).len() >= 1);
    }
}

/// Decoding escapes never grows a text: the decoded bytes are at most as many
/// as the UTF-8 bytes of the input.
pub proof fn law_unescaped_no_longer(s: Seq<char>)
    ensures
        unescaped_bytes(s).len() <= encode_utf8(s).len(),
    decreases s.len(),
{
    if s.len() == 0 {
    } else if s[0] != '\\' {
        lemma_encode_split(s, 1);
        assert(s.take(1) =~= seq![s[0]]);
        lemma_encode_utf8_single(s[0]);
        law_unescaped_no_longer(s.skip(1));
    } else if s.len() == 1 {
    } else {
        let n = s[1];
        lemma_encode_split(s, 2);
        if n == '"' || n == '\\' || n == 'n' || n == 't' || n == 'r' {
            law_unescaped_no_longer(s.skip(2));
        } else if n == 'x' {
            if s.len() >= 4 {
                lemma_encode_split(s, 4);
                law_unescaped_no_longer(s.skip(4));
                let t = s.take(4);
                lemma_encode_split(t, 2);
                assert(t.take(2) =~= s.take(2));
                assert(t.skip(2) =~= seq![s[2], s[3]]);
                lemma_encode_utf8_concat(seq![s[2]], seq![s[3]]);
                assert(seq![s[2]] + seq![s[3]] =~= seq![s[2], s[3]]);
                lemma_encode_utf8_single(s[2]);
                lemma_encode_utf8_single(s[3]);
            } else if s.len() == 3 {
                assert(s.skip(2) =~= seq![s[2]]);
                lemma_encode_utf8_single(s[2]);
            }
        } else {
            law_unescaped_no_longer(s.skip(2));
            let t = s.take(2);
            lemma_encode_split(t, 1);
            assert(t.take(1) =~= seq![s[0]]);
            assert(t.skip(1) =~= seq![s[1]]);
            lemma_encode_utf8_single(s[0]);
            lemma_encode_utf8_single(s[1]);
        }
    }
}

/// Decodes the escapes `\" \\ \n \t \r \xHH` of `s`; the bytes are read as
/// UTF-8, invalid sequences replaced (`String::from_utf8_lossy`).
#[verifier::rlimit(30)]
pub fn decode_escapes(s: &str) -> (r: String)
    ensures
        r@ == utf8_lossy_chars(unescaped_bytes(s@)),
        valid_utf8(unescaped_bytes(s@)) ==> r@ == decode_utf8(unescaped_bytes(s@)),
        no_backslash(s@) ==> r@ == s@,
        r@.len() <= encode_utf8(s@).len(),
        valid_utf8(unescaped_bytes(s@)) ==> encode_utf8(r@).len() <= encode_utf8(s@).len(),
{
    let cs = chars_of(s);
    let n = cs.len();
    let mut out: Vec<u8> = Vec::new();
    let mut i: usize = 0;
    assert(cs@.skip(0) =~= cs@);
    while i < n
        invariant
            cs@ == s@,
            n == cs@.len(),
            i <= n,
            unescaped_bytes(cs@) == out@ + unescaped_bytes(cs@.skip(i as int)),
        decreases n - i,
    {
        let ghost rest = cs@.skip(i as int);
        let c = cs[i];
        if c != '\\' {
            let b = encode_char(c);
            push_bytes(&mut out, &b);
            assert(rest.skip(1) =~= cs@.skip(i + 1));
            i = i + 1;
        } else if i + 1 == n {
            assert(rest.len() == 1);
            i = i + 1;
            assert(cs@.skip(i as int) =~= Seq::<char>::empty());
        } else {
            let d = cs[i + 1];
            if d == '"' || d == '\\' || d == 'n' || d == 't' || d == 'r' {
                let byte: u8 = if d == '"' {
                    0x22
                } else if d == '\\' {
                    0x5c
                } else if d == 'n' {
                    0x0a
                } else if d == 't' {
                    0x09
                } else {
                    0x0d
                };
                out.push(byte);
                assert(rest.skip(2) =~= cs@.skip(i + 2));
                i = i + 2;
            } else if d == 'x' {
                out.push(0x5c);
                if n - i >= 4 {
                    let h1 = cs[i + 2];
                    let h2 = cs[i + 3];
                    match (hex_digit(h1), hex_digit(h2)) {
                        (Some(a), Some(b)) => {
                            out.pop();
                            out.push(a * 16 + b);
                        },
                        _ => {
                            out.push(0x78);
                            let e1 = encode_char(h1);
                            push_bytes(&mut out, &e1);
                            let e2 = encode_char(h2);
                            push_bytes(&mut out, &e2);
                        },
                    }
                    assert(rest.skip(4) =~= cs@.skip(i + 4));
                    i = i + 4;
                } else if n - i == 3 {
                    out.push(0x78);
                    let h1 = cs[i + 2];
                    let e1 = encode_char(h1);
                    push_bytes(&mut out, &e1);
                    i = n;
                    assert(cs@.skip(i as int) =~= Seq::<char>::empty());
                } else {
                    out.push(0x78);
                    i = n;
                    assert(cs@.skip(i as int) =~= Seq::<char>::empty());
                }
            } else {
                out.push(0x5c);
                let e = encode_char(d);
                push_bytes(&mut out, &e);
                assert(rest.skip(2) =~= cs@.skip(i + 2));
                i = i + 2;
            }
        }
    }
    assert(cs@.skip(n as int) =~= Seq::<char>::empty());
    assert(out@ =~= unescaped_bytes(s@));
    proof {
        if no_backslash(s@) {
            lemma_unescaped_plain(s@);
        }
        law_unescaped_no_longer(s@);
        if valid_utf8(out@) {
            vstd::utf8::decode_utf8_encode_utf8(out@);
        }
    }
    utf8_lossy(&out)
}

/// A quoted string with the escapes `\" \\ \n \t \r \xHH`; the content is
/// returned as written, escapes not decoded.
pub fn parse_quoted_string<'a>(input: &mut &'a str) -> (r: WResult<&'a str>)
    ensures
        inner_taken(
            old(input)@,
            final(input)@,
            r,
            delimited_end(old(input)@, '"', '"', EscapeSet::Quoted),
        ),
{
    quot_str_impl(input)
}

/// A raw string `r"..."` or `r#"..."#`, escapes not processed.
pub fn parse_raw_string<'a>(input: &mut &'a str) -> (r: WResult<&'a str>)
    ensures
        span_taken(old(input)@, final(input)@, r, raw_string_span(old(input)@)),
{
    quot_r_str(input)
}

/// A quoted string without escapes: everything up to the next `"`.
pub fn parse_simple_quoted<'a>(input: &mut &'a str) -> (r: WResult<&'a str>)
    ensures
        inner_taken(old(input)@, final(input)@, r, find_quote_end(old(input)@)),
{
    window_path(input)
}

/// Scanning the escaped text `escaped(t)`, placed in `x` at `i` and followed by
/// a `"`, stops at that `"`.
proof fn lemma_scan_escaped_text(x: Seq<char>, i: int, t: Seq<char>)
    requires
        0 <= i,
        i + escaped(t).len() < x.len(),
        x.subrange(i, i + escaped(t).len()) == escaped(t),
        x[i + escaped(t).len()] == '"',
    ensures
        escaped_end(x, i, '"', EscapeSet::Quoted) == Some(i + escaped(t).len()),
    decreases t.len(),
{
    if t.len() > 0 {
        let c = t[0];
        let e = escape_char(c);
        let r = t.drop_first();
        assert(escaped(t) == e + escaped(r));
        let el = e.len() as int;
        assert(x.subrange(i + el, i + el + escaped(r).len()) =~= escaped(t).subrange(
            el,
            escaped(t).len() as int,
        ));
        assert(escaped(t).subrange(el, escaped(t).len() as int) =~= escaped(r));
        assert(x[i] == escaped(t)[0]);
        if el == 2 {
            assert(x[i + 1] == escaped(t)[1]);
        }
        lemma_scan_escaped_text(x, i + el, r);
    }
}

/// Quoted strings take every escape that escape decoding writes: for every text
/// `t`, `"` + `escaped(t)` + `"` (then anything) is one quoted string whose text
/// is `escaped(t)`; `quot_str` returns that text and consumes the closing quote.
pub proof fn law_quoted_takes_escaped(t: Seq<char>, rest: Seq<char>)
    ensures
        delimited_end(
            seq!['"'] + escaped(t) + seq!['"'] + rest,
            '"',
            '"',
            EscapeSet::Quoted,
        ) == Some(escaped(t).len() + 1int),
        (seq!['"'] + escaped(t) + seq!['"'] + rest).subrange(1, escaped(t).len() + 1int) == escaped(
            t,
        ),
{
    let x = seq!['"'] + escaped(t) + seq!['"'] + rest;
    let n = escaped(t).len() as int;
    assert(x.subrange(1, 1 + n) =~= escaped(t));
    assert(x[1 + n] == '"');
    lemma_scan_escaped_text(x, 1, t);
}

/// Without a second terminator, a quoted or raw string at the front is read
/// whole, separators inside it included: `"` + `escaped(t)` + `"` reads as
/// `escaped(t)`, and `r#"t"#` (with `t` holding no `"#`) reads as `t`; the
/// closing quote is consumed.
pub proof fn law_read_until_takes_strings_whole(v: WplSepView, t: Seq<char>, rest: Seq<char>)
    requires
        !sep_is_end(v),
        v.ups is None,
    ensures
        read_until_spec(v, seq!['"'] + escaped(t) + seq!['"'] + rest) == Some(
            (1int, escaped(t).len() + 1int, escaped(t).len() + 2int),
        ),
        (forall|j: int| 0 <= j ==> !occurs_at(t, seq!['"', '#'], j)) ==> read_until_spec(
            v,
            seq!['r', '#', '"'] + t + seq!['"', '#'] + rest,
        ) == Some((3int, 3 + t.len() as int, 5 + t.len() as int)),
{
    let x = seq!['"'] + escaped(t) + seq!['"'] + rest;
    law_quoted_takes_escaped(t, rest);
    assert(x[0] == '"');
    assert(!starts_with(x, seq!['r', '#', '"']));
    assert(!starts_with(x, seq!['r', '"']));
    assert(raw_string_span(x) is None);
    if forall|j: int| 0 <= j ==> !occurs_at(t, seq!['"', '#'], j) {
        law_raw_string_read_whole(t, rest);
    }
}

} // verus!


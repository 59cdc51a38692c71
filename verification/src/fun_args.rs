//! The names of the pipe functions, the builders that turn parsed arguments
//! into them, and the parsers of their key and number arguments.
use vstd::prelude::*;
use crate::chars::is_ascii_digit;
use crate::pipe::{
    Base64Decode, FCharsHas, FCharsIn, FCharsNotHas, FDigitHas, FDigitIn, FIpAddrIn, FdHas,
    IpAddress, LastJsonUnescape, SelectLast, TakeField,
};
use crate::text::{advance, chars_of, ParseFail, WResult};
use crate::utils::{
    is_class_span, lemma_name_len, lemma_space_len, name_len, skip_multispace,
    space_len, take_key, NameClass,
};

verus! {

/// `_` stands for "no target": the pipe then works on the field in hand.
pub open spec fn target_of(t: Seq<char>) -> Option<Seq<char>> {
    if t == seq!['_'] {
        None
    } else {
        Some(t)
    }
}

/// The optional target that the text `target` names.
pub fn normalize_target(target: String) -> (r: Option<String>)
    ensures
        match r {
            Some(s) => target_of(target@) == Some(s@),
            None => target_of(target@) is None,
        },
{
    let cs = chars_of(target.as_str());
    if cs.len() == 1 && cs[0] == '_' {
        assert(cs@ =~= seq!['_']);
        None
    } else {
        proof {
            if target@ == seq!['_'] {
                assert(cs@.len() == 1 && cs@[0] == '_');
            }
        }
        Some(target)
    }
}

/// Skips spaces, then takes a key (at least one key character).
pub fn key_arg(data: &mut &str) -> (r: WResult<String>)
    ensures
        ({
            let rest = old(data)@.skip(space_len(old(data)@));
            let n = name_len(rest, NameClass::Key);
            &&& 0 <= space_len(old(data)@) <= old(data)@.len()
            &&& n > 0 ==> (r matches Ok(s) && s@ == rest.take(n) && final(data)@ == rest.skip(n))
            &&& n <= 0 ==> (r is Err && final(data)@ == rest)
        }),
{
    let sp = skip_multispace(data);
    proof {
        lemma_space_len(old(data)@, sp@.len() as int);
    }
    let ghost rest = data@;
    match take_key(data) {
        Ok(k) => {
            proof {
                lemma_name_len(rest, NameClass::Key, k@.len() as int);
            }
            Ok(k.to_owned())
        },
        Err(e) => {
            proof {
                assert(is_class_span(rest, NameClass::Key, 0));
                lemma_name_len(rest, NameClass::Key, 0);
            }
            Err(e)
        },
    }
}

/// The value of a run of decimal digits.
pub open spec fn digits_value(s: Seq<char>) -> nat
    decreases s.len(),
{
    if s.len() == 0 {
        0
    } else {
        digits_value(s.drop_last()) * 10 + ((s.last() as u32) - ('0' as u32)) as nat
    }
}

/// `n` is the length of the run of ASCII digits that opens `s`.
pub open spec fn digit_span(s: Seq<char>, n: int) -> bool {
    &&& 0 <= n <= s.len()
    &&& forall|j: int| 0 <= j < n ==> is_ascii_digit(#[trigger] s[j])
    &&& (n == s.len() || !is_ascii_digit(s[n]))
}

/// A number argument: after spaces, a run of ASCII digits, read as an `i64`;
/// a value beyond `i64::MAX` reads as 0.
pub fn digit_arg(data: &mut &str) -> (r: WResult<i64>)
    ensures
        ({
            let rest = old(data)@.skip(space_len(old(data)@));
            &&& 0 <= space_len(old(data)@) <= old(data)@.len()
            &&& match r {
                Ok(v) => exists|n: int| {
                    &&& n > 0
                    &&& digit_span(rest, n)
                    &&& final(data)@ == rest.skip(n)
                    &&& v == (if digits_value(rest.take(n)) <= i64::MAX {
                        digits_value(rest.take(n)) as i64
                    } else {
                        0i64
                    })
                },
                Err(_) => final(data)@ == rest && (rest.len() == 0 || !is_ascii_digit(rest[0])),
            }
        }),
{
    let sp = skip_multispace(data);
    proof {
        lemma_space_len(old(data)@, sp@.len() as int);
    }
    let cs = chars_of(*data);
    let m = cs.len();
    let mut k: usize = 0;
    let mut value: u64 = 0;
    let mut overflow = false;
    while k < m && '0' <= cs[k] && cs[k] <= '9'
        invariant
            cs@ == data@,
            m == cs@.len(),
            k <= m,
            forall|j: int| 0 <= j < k ==> is_ascii_digit(#[trigger] cs@[j]),
            overflow ==> digits_value(cs@.take(k as int)) > i64::MAX,
            !overflow ==> value == digits_value(cs@.take(k as int)) && value <= i64::MAX,
        decreases m - k,
    {
        let d = (cs[k] as u32) - ('0' as u32);
        assert(cs@.take(k + 1).drop_last() =~= cs@.take(k as int));
        if !overflow {
            if value > (9223372036854775807u64 - (d as u64)) / 10 {
                overflow = true;
                assert(digits_value(cs@.take(k + 1)) == value * 10 + d);
            } else {
                value = value * 10 + (d as u64);
            }
        } else {
            assert(digits_value(cs@.take(k + 1)) >= digits_value(cs@.take(k as int)) * 10) by (nonlinear_arith)
                requires
                    digits_value(cs@.take(k + 1)) == digits_value(cs@.take(k as int)) * 10 + d,
                    d >= 0,
            ;
        }
        k = k + 1;
    }
    if k == 0 {
        return Err(ParseFail::expected("<digit>"));
    }
    advance(data, k);
    proof {
        assert(digit_span(cs@, k as int));
    }
    if overflow {
        Ok(0)
    } else {
        Ok(value as i64)
    }
}

impl TakeField {
    pub fn fun_name() -> (r: &'static str)
        ensures
            r@ == "take"@,
    {
        "take"
    }

    pub fn build(target: String) -> (r: Self)
        ensures
            r.target == target,
    {
        TakeField { target }
    }
}

impl SelectLast {
    pub fn fun_name() -> (r: &'static str)
        ensures
            r@ == "last"@,
    {
        "last"
    }

    pub fn build() -> (r: Self) {
        SelectLast {}
    }
}

impl FdHas {
    pub fn fun_name() -> (r: &'static str)
        ensures
            r@ == "f_has"@,
    {
        "f_has"
    }

    pub fn build(target: String) -> (r: Self)
        ensures
            match r.found {
                Some(s) => target_of(target@) == Some(s@),
                None => target_of(target@) is None,
            },
    {
        FdHas { found: normalize_target(target) }
    }
}

impl FCharsHas {
    pub fn fun_name() -> (r: &'static str)
        ensures
            r@ == "f_chars_has"@,
    {
        "f_chars_has"
    }

    pub fn build(args: (String, String)) -> (r: Self)
        ensures
            r.value == args.1,
            match r.target {
                Some(s) => target_of(args.0@) == Some(s@),
                None => target_of(args.0@) is None,
            },
    {
        FCharsHas { target: normalize_target(args.0), value: args.1 }
    }
}

impl FCharsNotHas {
    pub fn fun_name() -> (r: &'static str)
        ensures
            r@ == "f_chars_not_has"@,
    {
        "f_chars_not_has"
    }

    pub fn build(args: (String, String)) -> (r: Self)
        ensures
            r.value == args.1,
            match r.target {
                Some(s) => target_of(args.0@) == Some(s@),
                None => target_of(args.0@) is None,
            },
    {
        FCharsNotHas { target: normalize_target(args.0), value: args.1 }
    }
}

impl FCharsIn {
    pub fn fun_name() -> (r: &'static str)
        ensures
            r@ == "f_chars_in"@,
    {
        "f_chars_in"
    }

    pub fn build(args: (String, Vec<String>)) -> (r: Self)
        ensures
            r.value == args.1,
            match r.target {
                Some(s) => target_of(args.0@) == Some(s@),
                None => target_of(args.0@) is None,
            },
    {
        FCharsIn { target: normalize_target(args.0), value: args.1 }
    }
}

impl FDigitHas {
    pub fn fun_name() -> (r: &'static str)
        ensures
            r@ == "f_digit_has"@,
    {
        "f_digit_has"
    }

    pub fn build(args: (String, i64)) -> (r: Self)
        ensures
            r.value == args.1,
            match r.target {
                Some(s) => target_of(args.0@) == Some(s@),
                None => target_of(args.0@) is None,
            },
    {
        FDigitHas { target: normalize_target(args.0), value: args.1 }
    }
}

impl FDigitIn {
    pub fn fun_name() -> (r: &'static str)
        ensures
            r@ == "f_digit_in"@,
    {
        "f_digit_in"
    }

    pub fn build(args: (String, Vec<i64>)) -> (r: Self)
        ensures
            r.value == args.1,
            match r.target {
                Some(s) => target_of(args.0@) == Some(s@),
                None => target_of(args.0@) is None,
            },
    {
        FDigitIn { target: normalize_target(args.0), value: args.1 }
    }
}

impl FIpAddrIn {
    pub fn fun_name() -> (r: &'static str)
        ensures
            r@ == "f_ip_in"@,
    {
        "f_ip_in"
    }

    pub fn build(args: (String, Vec<IpAddress>)) -> (r: Self)
        ensures
            r.value == args.1,
            match r.target {
                Some(s) => target_of(args.0@) == Some(s@),
                None => target_of(args.0@) is None,
            },
    {
        FIpAddrIn { target: normalize_target(args.0), value: args.1 }
    }
}

impl LastJsonUnescape {
    pub fn fun_name() -> (r: &'static str)
        ensures
            r@ == "json_unescape"@,
    {
        "json_unescape"
    }

    pub fn build() -> (r: Self) {
        LastJsonUnescape {}
    }
}

impl Base64Decode {
    pub fn fun_name() -> (r: &'static str)
        ensures
            r@ == "base64_decode"@,
    {
        "base64_decode"
    }

    pub fn build() -> (r: Self) {
        Base64Decode {}
    }
}

} // verus!

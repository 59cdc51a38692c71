//! Values of SQL-like conditions: a quoted text or a numeric token, and the
//! reading of an integer from its decimal text.
use vstd::prelude::*;
use crate::chars::is_ascii_digit;
use crate::fun_args::digits_value;
use crate::text::{advance, chars_of, string_of_chars};

verus! {

/// A value token: the inside of a quoted text, or a run of numeric characters.
#[derive(Debug, PartialEq)]
pub enum SqlToken {
    Chars(String),
    Numeric(String),
}

/// Characters a numeric token holds: digits, `.`, `-` and `+`.
pub open spec fn numeric_char(c: char) -> bool {
    is_ascii_digit(c) || c == '.' || c == '-' || c == '+'
}

/// `e` is the index of the first `q` of `s` after its first character.
pub open spec fn closing_at(s: Seq<char>, q: char, e: int) -> bool {
    &&& 1 <= e < s.len()
    &&& s[e] == q
    &&& forall|j: int| 1 <= j < e ==> s[j] != q
}

/// The text that `s` opens with between two `q`, and the characters spanned.
pub open spec fn quoted_at(s: Seq<char>, q: char) -> Option<(Seq<char>, int)> {
    if s.len() > 0 && s[0] == q && exists|e: int| closing_at(s, q, e) {
        let e = choose|e: int| closing_at(s, q, e);
        Some((s.subrange(1, e), e + 1))
    } else {
        None
    }
}

/// `n` is the length of the run of numeric characters that opens `s`.
pub open spec fn numeric_span(s: Seq<char>, n: int) -> bool {
    &&& 0 <= n <= s.len()
    &&& forall|j: int| 0 <= j < n ==> numeric_char(#[trigger] s[j])
    &&& (n == s.len() || !numeric_char(s[n]))
}

fn quoted_token(cs: &Vec<char>, q: char) -> (r: Option<usize>)
    ensures
        match r {
            Some(e) => closing_at(cs@, q, e as int) && cs@[0] == q,
            None => !(cs@.len() > 0 && cs@[0] == q && exists|e: int| closing_at(cs@, q, e)),
        },
{
    if cs.len() == 0 || cs[0] != q {
        return None;
    }
    let mut e: usize = 1;
    while e < cs.len() && cs[e] != q
        invariant
            1 <= e <= cs@.len(),
            cs@[0] == q,
            forall|j: int| 1 <= j < e ==> cs@[j] != q,
        decreases cs.len() - e,
    {
        e = e + 1;
    }
    if e == cs.len() {
        proof {
            assert forall|x: int| !closing_at(cs@, q, x) by {
                if 1 <= x < cs@.len() {
                    assert(cs@[x] != q);
                }
            }
        }
        None
    } else {
        Some(e)
    }
}

/// Takes a value token: text between double quotes, else text between single
/// quotes, else the run of numeric characters (possibly empty).
pub fn take_sql_token(input: &mut &str) -> (r: SqlToken)
    ensures
        match quoted_at(old(input)@, '"') {
            Some((v, n)) => r matches SqlToken::Chars(t) && t@ == v && final(input)@ == old(
                input,
            )@.skip(n),
            None => match quoted_at(old(input)@, '\'') {
                Some((v, n)) => r matches SqlToken::Chars(t) && t@ == v && final(input)@ == old(
                    input,
                )@.skip(n),
                None => exists|n: int| {
                    &&& numeric_span(old(input)@, n)
                    &&& r matches SqlToken::Numeric(t)
                    &&& t@ == old(input)@.take(n)
                    &&& final(input)@ == old(input)@.skip(n)
                },
            },
        },
{
    let cs = chars_of(*input);
    if let Some(e) = quoted_token(&cs, '"') {
        assert(e < cs@.len() && cs@.len() == cs.len());
        let v = string_of_chars(&cs.as_slice()[1..e]);
        advance(input, e + 1);
        proof {
            let c = choose|x: int| closing_at(cs@, '"', x);
            if c < e {
                assert(cs@[c] != '"');
            } else if e < c {
                assert(cs@[e as int] != '"');
            }
        }
        return SqlToken::Chars(v);
    }
    if let Some(e) = quoted_token(&cs, '\'') {
        assert(e < cs@.len() && cs@.len() == cs.len());
        let v = string_of_chars(&cs.as_slice()[1..e]);
        advance(input, e + 1);
        proof {
            let c = choose|x: int| closing_at(cs@, '\'', x);
            if c < e {
                assert(cs@[c] != '\'');
            } else if e < c {
                assert(cs@[e as int] != '\'');
            }
        }
        return SqlToken::Chars(v);
    }
    let mut n: usize = 0;
    while n < cs.len() && (('0' <= cs[n] && cs[n] <= '9') || cs[n] == '.' || cs[n] == '-'
        || cs[n] == '+')
        invariant
            cs@ == input@,
            n <= cs@.len(),
            forall|j: int| 0 <= j < n ==> numeric_char(#[trigger] cs@[j]),
        decreases cs.len() - n,
    {
        n = n + 1;
    }
    let t = advance(input, n);
    assert(numeric_span(old(input)@, n as int));
    SqlToken::Numeric(t.to_owned())
}

/// Every character of `d` is an ASCII digit.
pub open spec fn all_digits(d: Seq<char>) -> bool {
    forall|j: int| 0 <= j < d.len() ==> is_ascii_digit(#[trigger] d[j])
}

/// `s` opens with a sign.
pub open spec fn signed_text(s: Seq<char>) -> bool {
    s.len() > 0 && (s[0] == '+' || s[0] == '-')
}

/// The integer that `s` writes in decimal: an optional `+` or `-`, then one or
/// more ASCII digits.
pub open spec fn int_text_value(s: Seq<char>) -> Option<int> {
    let digits = if signed_text(s) {
        s.skip(1)
    } else {
        s
    };
    if digits.len() > 0 && all_digits(digits) {
        if signed_text(s) && s[0] == '-' {
            Some(-(digits_value(digits) as int))
        } else {
            Some(digits_value(digits) as int)
        }
    } else {
        None
    }
}

/// Reads an `i64` from its decimal text, as `str::parse::<i64>` does: `None`
/// for anything but a sign and digits, and for values out of range.
pub fn sql_integer(text: &str) -> (r: Option<i64>)
    ensures
        match int_text_value(text@) {
            Some(v) => if i64::MIN <= v <= i64::MAX {
                r == Some(v as i64)
            } else {
                r is None
            },
            None => r is None,
        },
{
    let cs = chars_of(text);
    let n = cs.len();
    let mut start: usize = 0;
    let mut negative = false;
    if n > 0 && (cs[0] == '+' || cs[0] == '-') {
        start = 1;
        negative = cs[0] == '-';
    }
    let ghost digits = if start == 1 {
        cs@.skip(1)
    } else {
        cs@
    };
    if start == n {
        return None;
    }
    let mut k: usize = start;
    let mut value: u64 = 0;
    let mut big = false;
    while k < n
        invariant
            cs@ == text@,
            n == cs@.len(),
            start <= k <= n,
            start <= 1,
            (start == 1) == (cs@.len() > 0 && (cs@[0] == '+' || cs@[0] == '-')),
            negative == (start == 1 && cs@[0] == '-'),
            digits == cs@.skip(start as int),
            forall|j: int| start <= j < k ==> is_ascii_digit(#[trigger] cs@[j]),
            big ==> digits_value(cs@.subrange(start as int, k as int)) > 9223372036854775808,
            !big ==> value == digits_value(cs@.subrange(start as int, k as int)) && value
                <= 9223372036854775808u64,
        decreases n - k,
    {
        if !('0' <= cs[k] && cs[k] <= '9') {
            proof {
                assert(digits[k - start] == cs@[k as int]);
                assert(!is_ascii_digit(digits[k - start]));
                assert(0 <= k - start < digits.len());
                assert(!all_digits(digits));
            }
            return None;
        }
        let d = (cs[k] as u32) - ('0' as u32);
        assert(cs@.subrange(start as int, k + 1).drop_last() =~= cs@.subrange(
            start as int,
            k as int,
        ));
        if !big {
            if value > (9223372036854775808u64 - (d as u64)) / 10 {
                big = true;
            } else {
                value = value * 10 + (d as u64);
            }
        } else {
            assert(digits_value(cs@.subrange(start as int, k + 1)) >= digits_value(
                cs@.subrange(start as int, k as int),
            ) * 10) by (nonlinear_arith)
                requires
                    digits_value(cs@.subrange(start as int, k + 1)) == digits_value(
                        cs@.subrange(start as int, k as int),
                    ) * 10 + d,
                    d >= 0,
            ;
        }
        k = k + 1;
    }
    assert(cs@.subrange(start as int, n as int) =~= digits);
    assert forall|j: int| 0 <= j < digits.len() implies is_ascii_digit(#[trigger] digits[j]) by {
        assert(digits[j] == cs@[start + j]);
    }
    assert(all_digits(digits));
    if big {
        return None;
    }
    if negative {
        if value == 9223372036854775808u64 {
            Some(-9223372036854775807i64 - 1)
        } else {
            Some(-(value as i64))
        }
    } else if value == 9223372036854775808u64 {
        None
    } else {
        Some(value as i64)
    }
}

} // verus!

//! Separators: how a field ends, with priorities that decide which of a
//! field's, a group's or the upstream separator applies.
use vstd::prelude::*;
use vstd::utf8::encode_utf8;
use crate::text::{
    advance, chars_of, matches_at, split_chars, starts_with, string_of_chars, took, ParseFail,
    WResult,
};
use crate::utils::{
    delimited_end, find, find_delimited, find_raw_string, find_spec, lemma_escaped_end_bounds,
    lemma_raw_span_bounds, quot_r_str, quot_str, raw_string_span, take_to_end, EscapeSet,
};

verus! {

/// A separator value: a literal text, or the end of the line/input (`\0`).
#[derive(Debug, PartialEq)]
pub enum SepEnum {
    Str(String),
    End,
}

/// The mathematical value of a `SepEnum`.
pub enum SepView {
    Str(Seq<char>),
    End,
}

impl View for SepEnum {
    type V = SepView;

    open spec fn view(&self) -> SepView {
        match self {
            SepEnum::Str(s) => SepView::Str(s@),
            SepEnum::End => SepView::End,
        }
    }
}

/// What a separator text denotes: `\0` is the end; `\s` is one space; with
/// `zero_is_end`, `0` is the end too.
pub open spec fn sep_view_of(v: Seq<char>, zero_is_end: bool) -> SepView {
    if v == seq!['\\', '0'] || (zero_is_end && v == seq!['0']) {
        SepView::End
    } else if v == seq!['\\', 's'] {
        SepView::Str(seq![' '])
    } else {
        SepView::Str(v)
    }
}

pub fn chars_equal(a: &[char], b: &[char]) -> (r: bool)
    ensures
        r == (a@ == b@),
{
    if a.len() != b.len() {
        return false;
    }
    let r = matches_at(a, 0, b);
    proof {
        if r {
            assert(a@.subrange(0, b@.len() as int) =~= a@);
        } else {
            assert(a@.subrange(0, b@.len() as int) =~= a@);
        }
    }
    r
}

impl SepEnum {
    /// Separator from a text written in a rule (`From<&str>`): `\0` and `0`
    /// mean the end, `\s` a space.
    pub fn from_str_value(value: &str) -> (r: SepEnum)
        ensures
            r@ == sep_view_of(value@, true),
    {
        SepEnum::from_text(value, true)
    }

    /// Separator from an owned text (`From<String>`, `From<SmolStr>`): `\0`
    /// means the end, `\s` a space.
    pub fn from_owned(value: String) -> (r: SepEnum)
        ensures
            r@ == sep_view_of(value@, false),
    {
        SepEnum::from_text(value.as_str(), false)
    }

    fn from_text(value: &str, zero_is_end: bool) -> (r: SepEnum)
        ensures
            r@ == sep_view_of(value@, zero_is_end),
    {
        let cs = chars_of(value);
        let esc0 = ['\\', '0'];
        let zero = ['0'];
        let escs = ['\\', 's'];
        assert(esc0@ =~= seq!['\\', '0']);
        assert(zero@ =~= seq!['0']);
        assert(escs@ =~= seq!['\\', 's']);
        if chars_equal(&cs, &esc0) || (zero_is_end && chars_equal(&cs, &zero)) {
            SepEnum::End
        } else if chars_equal(&cs, &escs) {
            let sp = [' '];
            assert(sp@ =~= seq![' ']);
            SepEnum::Str(string_of_chars(&sp))
        } else {
            SepEnum::Str(value.to_owned())
        }
    }

    pub fn duplicate(&self) -> (r: SepEnum)
        ensures
            r@ == self@,
    {
        match self {
            SepEnum::Str(s) => SepEnum::Str(s.clone()),
            SepEnum::End => SepEnum::End,
        }
    }
}

/// A separator with its priority: 1 inherited from upstream, 2 set on a group,
/// 3 set on a field. `ups_val` is an optional second terminator, `infer` marks
/// a separator that was inferred rather than written, and `is_take` whether
/// the separator is consumed after the field.
#[derive(Debug, PartialEq)]
pub struct WplSep {
    prio: usize,
    cur_val: Option<SepEnum>,
    ups_val: Option<String>,
    infer: bool,
    is_take: bool,
}

/// The mathematical value of a `WplSep`.
pub struct WplSepView {
    pub prio: usize,
    pub cur: Option<SepView>,
    pub ups: Option<Seq<char>>,
    pub infer: bool,
    pub is_take: bool,
}

impl View for WplSep {
    type V = WplSepView;

    open spec fn view(&self) -> WplSepView {
        self.model()
    }
}

/// The separator text: the literal, a line feed for the end, a space when unset.
pub open spec fn sep_text(v: WplSepView) -> Seq<char> {
    match v.cur {
        Some(SepView::Str(s)) => s,
        Some(SepView::End) => seq!['\n'],
        None => seq![' '],
    }
}

/// The separator is the end of the input.
pub open spec fn sep_is_end(v: WplSepView) -> bool {
    v.cur matches Some(SepView::End)
}

/// The view of a separator built from `val` with the given priority and flags.
pub open spec fn sep_built(
    prio: usize,
    val: Seq<char>,
    ups: Option<Seq<char>>,
    infer: bool,
    is_take: bool,
) -> WplSepView {
    WplSepView { prio, cur: Some(sep_view_of(val, false)), ups, infer, is_take }
}

/// `a` after `a.override_with(b)`: `b`'s priority and value when `b` ranks
/// strictly higher, otherwise `a` unchanged.
pub open spec fn overridden(a: WplSepView, b: WplSepView) -> WplSepView {
    if b.prio > a.prio {
        WplSepView { prio: b.prio, cur: b.cur, ..a }
    } else {
        a
    }
}

/// `a` after `a.apply_default(b)`: `b`'s priority and value when `b` ranks
/// strictly higher or `a` is unset, otherwise `a` unchanged.
pub open spec fn applied_default(a: WplSepView, b: WplSepView) -> WplSepView {
    if b.prio > a.prio || a.cur is None {
        WplSepView { prio: b.prio, cur: b.cur, ..a }
    } else {
        a
    }
}

/// Overriding never lowers the priority: the result ranks as the higher of
/// the two, and keeps the second terminator and flags of the separator that
/// was overridden.
pub proof fn law_override_priority(a: WplSepView, b: WplSepView)
    ensures
        overridden(a, b).prio == if a.prio >= b.prio {
            a.prio
        } else {
            b.prio
        },
        overridden(a, b).ups == a.ups,
        overridden(a, b).infer == a.infer,
        overridden(a, b).is_take == a.is_take,
{
}

/// Overriding twice with the same separator is overriding once.
pub proof fn law_override_idempotent(a: WplSepView, b: WplSepView)
    ensures
        overridden(overridden(a, b), b) == overridden(a, b),
{
}

/// A field-level separator (priority 3) is kept against group-level and
/// upstream separators (priority at most 3).
pub proof fn law_field_sep_wins(val: Seq<char>, b: WplSepView)
    requires
        b.prio <= 3,
    ensures
        overridden(sep_built(3, val, None, false, true), b) == sep_built(3, val, None, false, true),
{
}

/// After `apply_default` with a set separator, the separator is set.
pub proof fn law_apply_default_sets(a: WplSepView, b: WplSepView)
    requires
        b.cur is Some,
    ensures
        applied_default(a, b).cur is Some,
{
}

fn dup_opt_sep(v: &Option<SepEnum>) -> (r: Option<SepEnum>)
    ensures
        r.is_some() == v.is_some(),
        r matches Some(x) ==> x@ == v->0@,
{
    match v {
        Some(x) => Some(x.duplicate()),
        None => None,
    }
}

fn dup_opt_string(v: &Option<String>) -> (r: Option<String>)
    ensures
        r.is_some() == v.is_some(),
        r matches Some(x) ==> x@ == v->0@,
{
    match v {
        Some(x) => Some(x.clone()),
        None => None,
    }
}

impl Default for WplSep {
    fn default() -> (r: WplSep)
        ensures
            r@ == (WplSepView { prio: 1, cur: None, ups: None, infer: false, is_take: true }),
    {
        WplSep::new_default()
    }
}

impl WplSep {
    pub closed spec fn model(&self) -> WplSepView {
        WplSepView {
            prio: self.prio,
            cur: match self.cur_val {
                Some(x) => Some(x@),
                None => None,
            },
            ups: match self.ups_val {
                Some(x) => Some(x@),
                None => None,
            },
            infer: self.infer,
            is_take: self.is_take,
        }
    }

    /// The default separator: priority 1, unset, consumed.
    pub fn new_default() -> (r: WplSep)
        ensures
            r@ == (WplSepView { prio: 1, cur: None, ups: None, infer: false, is_take: true }),
    {
        WplSep { prio: 1, cur_val: None, ups_val: None, infer: false, is_take: true }
    }

    fn build(prio: usize, val: &str, infer: bool) -> (r: WplSep)
        ensures
            r@ == sep_built(prio, val@, None, infer, true),
    {
        WplSep {
            prio,
            cur_val: Some(SepEnum::from_owned(val.to_owned())),
            ups_val: None,
            infer,
            is_take: true,
        }
    }

    /// Field-level separator (priority 3): overrides group level and upstream.
    pub fn field_sep(val: &str) -> (r: WplSep)
        ensures
            r@ == sep_built(3, val@, None, false, true),
    {
        WplSep::build(3, val, false)
    }

    /// Inherited separator (priority 1).
    pub fn inherited_sep(val: &str) -> (r: WplSep)
        ensures
            r@ == sep_built(1, val@, None, false, true),
    {
        WplSep::build(1, val, false)
    }

    /// Inferred inherited separator (priority 1).
    pub fn infer_inherited_sep(val: &str) -> (r: WplSep)
        ensures
            r@ == sep_built(1, val@, None, true, true),
    {
        WplSep::build(1, val, true)
    }

    /// Inferred group separator (priority 2).
    pub fn infer_group_sep(val: &str) -> (r: WplSep)
        ensures
            r@ == sep_built(2, val@, None, true, true),
    {
        WplSep::build(2, val, true)
    }

    /// Group separator (priority 2).
    pub fn group_sep(val: &str) -> (r: WplSep)
        ensures
            r@ == sep_built(2, val@, None, false, true),
    {
        WplSep::build(2, val, false)
    }

    /// Inferred field separator (priority 3).
    pub fn infer_field_sep(val: &str) -> (r: WplSep)
        ensures
            r@ == sep_built(3, val@, None, true, true),
    {
        WplSep::build(3, val, true)
    }

    /// Field separator (priority 3) with a second terminator `sec`; `is_take`
    /// says whether the separator is consumed.
    pub fn field_sep_until(val: &str, sec: &str, is_take: bool) -> (r: WplSep)
        ensures
            r@ == sep_built(3, val@, Some(sec@), false, is_take),
    {
        WplSep {
            prio: 3,
            cur_val: Some(SepEnum::from_owned(val.to_owned())),
            ups_val: Some(sec.to_owned()),
            infer: false,
            is_take,
        }
    }

    /// A copy marked as inferred.
    pub fn infer_clone(&self) -> (r: WplSep)
        ensures
            r@ == (WplSepView { infer: true, ..self@ }),
    {
        WplSep {
            prio: self.prio,
            cur_val: dup_opt_sep(&self.cur_val),
            ups_val: dup_opt_string(&self.ups_val),
            infer: true,
            is_take: self.is_take,
        }
    }

    /// A copy.
    pub fn duplicate(&self) -> (r: WplSep)
        ensures
            r@ == self@,
    {
        WplSep {
            prio: self.prio,
            cur_val: dup_opt_sep(&self.cur_val),
            ups_val: dup_opt_string(&self.ups_val),
            infer: self.infer,
            is_take: self.is_take,
        }
    }

    pub fn prio(&self) -> (r: &usize)
        ensures
            *r == self@.prio,
    {
        &self.prio
    }

    pub fn cur_val(&self) -> (r: &Option<SepEnum>)
        ensures
            r.is_some() == self@.cur.is_some(),
            r matches Some(x) ==> self@.cur == Some(x@),
    {
        &self.cur_val
    }

    pub fn ups_val(&self) -> (r: &Option<String>)
        ensures
            r.is_some() == self@.ups.is_some(),
            r matches Some(x) ==> self@.ups == Some(x@),
    {
        &self.ups_val
    }

    pub fn infer(&self) -> (r: &bool)
        ensures
            *r == self@.infer,
    {
        &self.infer
    }

    pub fn is_take(&self) -> (r: &bool)
        ensures
            *r == self@.is_take,
    {
        &self.is_take
    }

    /// Takes `other`'s priority and value when `other` ranks higher or this
    /// separator is unset.
    pub fn apply_default(&mut self, other: WplSep)
        ensures
            final(self)@ == applied_default(old(self)@, other@),
    {
        if other.prio > self.prio || self.cur_val.is_none() {
            self.prio = other.prio;
            self.cur_val = other.cur_val;
        }
    }

    /// Replaces the current value (the priority is kept).
    pub fn set_current(&mut self, sep: &str)
        ensures
            final(self)@ == (WplSepView { cur: Some(sep_view_of(sep@, false)), ..old(self)@ }),
    {
        self.cur_val = Some(SepEnum::from_owned(sep.to_owned()));
    }

    pub fn is_unset(&self) -> (r: bool)
        ensures
            r == self@.cur is None,
    {
        self.cur_val.is_none()
    }

    pub fn is_to_end(&self) -> (r: bool)
        ensures
            r == sep_is_end(self@),
    {
        match &self.cur_val {
            Some(SepEnum::End) => true,
            _ => false,
        }
    }

    /// Takes `other`'s priority and value when `other` ranks strictly higher.
    pub fn override_with(&mut self, other: &WplSep)
        ensures
            final(self)@ == overridden(old(self)@, other@),
    {
        if other.prio > self.prio {
            self.prio = other.prio;
            self.cur_val = dup_opt_sep(&other.cur_val);
        }
    }

    /// The separator text.
    pub fn sep_str(&self) -> (r: &str)
        ensures
            r@ == sep_text(self@),
    {
        match &self.cur_val {
            Some(SepEnum::Str(s)) => s.as_str(),
            Some(SepEnum::End) => {
                proof {
                    reveal_strlit("\n");
                }
                "\n"
            },
            None => {
                proof {
                    reveal_strlit(" ");
                }
                " "
            },
        }
    }

    pub fn is_space_sep(&self) -> (r: bool)
        ensures
            r == (sep_text(self@) == seq![' ']),
    {
        let cs = chars_of(self.sep_str());
        let sp = [' '];
        assert(sp@ =~= seq![' ']);
        chars_equal(&cs, &sp)
    }

    /// The separator must be consumed explicitly: it is neither the end nor a space.
    pub fn need_take_sep(&self) -> (r: bool)
        ensures
            r == !(sep_is_end(self@) || sep_text(self@) == seq![' ']),
    {
        !(self.is_to_end() || self.is_space_sep())
    }

    /// Consumes the separator when it is to be taken; fails when the input
    /// does not begin with it.
    pub fn consume_sep(&self, input: &mut &str) -> (r: WResult<()>)
        ensures
            if !self@.is_take {
                r is Ok && final(input)@ == old(input)@
            } else if starts_with(old(input)@, sep_text(self@)) {
                r is Ok && final(input)@ == old(input)@.skip(sep_text(self@).len() as int)
            } else {
                r is Err && final(input)@ == old(input)@
            },
    {
        if self.is_take {
            let cs = chars_of(*input);
            let sep = chars_of(self.sep_str());
            if matches_at(&cs, 0, &sep) {
                advance(input, sep.len());
            } else {
                return Err(ParseFail::expected("take <sep>"));
            }
        }
        Ok(())
    }

    /// Consumes the separator when it is to be taken and present.
    pub fn try_consume_sep(&self, input: &mut &str) -> (r: WResult<()>)
        ensures
            r is Ok,
            final(input)@ == if self@.is_take && starts_with(old(input)@, sep_text(self@)) {
                old(input)@.skip(sep_text(self@).len() as int)
            } else {
                old(input)@
            },
    {
        if self.is_take {
            let cs = chars_of(*input);
            let sep = chars_of(self.sep_str());
            if matches_at(&cs, 0, &sep) {
                advance(input, sep.len());
            }
        }
        Ok(())
    }
}

/// The low eight bits of a character's code (`c as u8`).
pub open spec fn low_byte(c: char) -> u8 {
    ((c as u32) % 256) as u8
}

/// `c` ends a run read by `read_until_any_char`: its low byte is one of the
/// bytes of the two end markers.
pub open spec fn is_stop_char(c: char, e1: Seq<u8>, e2: Seq<u8>) -> bool {
    e1.contains(low_byte(c)) || e2.contains(low_byte(c))
}

/// The first `n` characters of `s` are not stop characters and the next one is.
pub open spec fn is_free_span(s: Seq<char>, e1: Seq<u8>, e2: Seq<u8>, n: int) -> bool {
    &&& 0 <= n <= s.len()
    &&& forall|j: int| 0 <= j < n ==> !is_stop_char(#[trigger] s[j], e1, e2)
    &&& (n == s.len() || is_stop_char(s[n], e1, e2))
}

/// Length of the leading run without stop characters.
pub open spec fn free_len(s: Seq<char>, e1: Seq<u8>, e2: Seq<u8>) -> int {
    choose|n: int| is_free_span(s, e1, e2, n)
}

/// A raw string, else a quoted string, at the start of `s`:
/// `(start, end, consumed)` of its text.
pub open spec fn quoted_or(s: Seq<char>) -> Option<(int, int, int)> {
    match raw_string_span(s) {
        Some(x) => Some(x),
        None => match delimited_end(s, '"', '"', EscapeSet::Quoted) {
            Some(e) => Some((1, e, e + 1)),
            None => None,
        },
    }
}

/// What `read_until_any_char` reads: a raw or quoted string, else the run
/// before the first stop character.
pub open spec fn any_char_span(s: Seq<char>, e1: Seq<u8>, e2: Seq<u8>) -> (int, int, int) {
    match quoted_or(s) {
        Some(x) => x,
        None => (0, free_len(s, e1, e2), free_len(s, e1, e2)),
    }
}

/// What `read_until_sep` reads from `s` with separator `v`:
/// `(start, end, consumed)`, or `None` when a quoted text is malformed.
pub open spec fn read_until_spec(v: WplSepView, s: Seq<char>) -> Option<(int, int, int)> {
    let sep = sep_text(v);
    if sep_is_end(v) {
        Some((0, s.len() as int, s.len() as int))
    } else {
        match v.ups {
            Some(u) => if encode_utf8(sep).len() == 1 && encode_utf8(u).len() == 1 {
                Some(any_char_span(s, encode_utf8(sep), encode_utf8(u)))
            } else if starts_with(s, seq!['"']) || starts_with(s, seq!['r', '#', '"'])
                || starts_with(s, seq!['r', '"']) {
                quoted_or(s)
            } else {
                match (find_spec(s, sep, 0), find_spec(s, u, 0)) {
                    (Some(i), Some(j)) => {
                        let k = if i <= j {
                            i
                        } else {
                            j
                        };
                        Some((0, k, k))
                    },
                    (Some(i), None) => Some((0, i, i)),
                    (None, Some(j)) => Some((0, j, j)),
                    (None, None) => Some((0, s.len() as int, s.len() as int)),
                }
            },
            None => match quoted_or(s) {
                Some(x) => Some(x),
                None => match find_spec(s, sep, 0) {
                    Some(i) => Some((0, i, i)),
                    None => Some((0, s.len() as int, s.len() as int)),
                },
            },
        }
    }
}

/// Position after the `k`-th separator when `k` non-empty items, each
/// ending at the next occurrence of `sep`, are read from the start of `s`.
pub open spec fn repeat_pos(s: Seq<char>, sep: Seq<char>, k: nat) -> Option<int>
    decreases k,
{
    if k == 0 {
        Some(0)
    } else {
        match repeat_pos(s, sep, (k - 1) as nat) {
            Some(p) => match find_spec(s, sep, p) {
                Some(q) => if q > p {
                    Some(q + sep.len())
                } else {
                    None
                },
                None => None,
            },
            None => None,
        }
    }
}

/// How many characters `read_until_sep_repeat` consumes for `num` items.
pub open spec fn repeat_span(s: Seq<char>, sep: Seq<char>, num: nat) -> Option<int> {
    if num == 0 {
        Some(0)
    } else {
        match repeat_pos(s, sep, num) {
            Some(p) => Some(p - sep.len()),
            None => None,
        }
    }
}

proof fn lemma_free_len(s: Seq<char>, e1: Seq<u8>, e2: Seq<u8>, n: int)
    requires
        is_free_span(s, e1, e2, n),
    ensures
        free_len(s, e1, e2) == n,
{
    let m = free_len(s, e1, e2);
    assert(is_free_span(s, e1, e2, m));
    if m < n {
        assert(!is_stop_char(s[m], e1, e2));
    } else if n < m {
        assert(!is_stop_char(s[n], e1, e2));
    }
}

proof fn lemma_find_bounds(s: Seq<char>, pat: Seq<char>, from: int)
    ensures
        find_spec(s, pat, from) matches Some(i) ==> from <= i && i + pat.len() <= s.len(),
{
    if let Some(i) = find_spec(s, pat, from) {
        assert(crate::text::first_occurrence_from(s, pat, from, i));
    }
}

fn bytes_contain(b: &[u8], x: u8) -> (r: bool)
    ensures
        r == b@.contains(x),
{
    let mut i: usize = 0;
    while i < b.len()
        invariant
            i <= b@.len(),
            forall|j: int| 0 <= j < i ==> b@[j] != x,
        decreases b.len() - i,
    {
        if b[i] == x {
            assert(b@[i as int] == x);
            return true;
        }
        i = i + 1;
    }
    false
}

fn stop_char(e1: &[u8], e2: &[u8], c: char) -> (r: bool)
    ensures
        r == is_stop_char(c, e1@, e2@),
{
    let x = (c as u32) % 256;
    let lb = x as u8;
    bytes_contain(e1, lb) || bytes_contain(e2, lb)
}

/// Once the items cannot be read, more items cannot be read either.
proof fn lemma_repeat_none(s: Seq<char>, sep: Seq<char>, k: nat, m: nat)
    requires
        k <= m,
        repeat_pos(s, sep, k) is None,
    ensures
        repeat_pos(s, sep, m) is None,
    decreases m - k,
{
    if k < m {
        lemma_repeat_none(s, sep, k + 1, m);
    }
}

fn quoted_or_exec(cs: &[char]) -> (r: Option<(usize, usize, usize)>)
    ensures
        match r {
            Some((b, e, n)) => quoted_or(cs@) == Some((b as int, e as int, n as int)) && b <= e
                <= n <= cs@.len(),
            None => quoted_or(cs@) is None,
        },
{
    assert(cs@.len() == cs.len());
    match find_raw_string(cs) {
        Some(x) => Some(x),
        None => match find_delimited(cs, '"', '"', EscapeSet::Quoted) {
            Some(e) => {
                proof {
                    lemma_escaped_end_bounds(cs@, 1, '"', EscapeSet::Quoted);
                }
                Some((1, e, e + 1))
            },
            None => None,
        },
    }
}

fn take_range<'a>(data: &mut &'a str, b: usize, e: usize, n: usize) -> (r: &'a str)
    requires
        b <= e <= n <= old(data)@.len(),
    ensures
        r@ == old(data)@.subrange(b as int, e as int),
        final(data)@ == old(data)@.skip(n as int),
{
    let (_, tail) = split_chars(*data, b);
    let (v, _) = split_chars(tail, e - b);
    let (_, rest) = split_chars(*data, n);
    assert(v@ =~= old(data)@.subrange(b as int, e as int));
    *data = rest;
    v
}

/// Byte length of the UTF-8 encoding of `cs`.
pub fn utf8_len_of(cs: &[char]) -> (r: u128)
    ensures
        r == encode_utf8(cs@).len(),
        r <= 4 * cs@.len(),
{
    let mut total: u128 = 0;
    let mut k: usize = 0;
    assert(cs@.take(0) =~= Seq::<char>::empty());
    while k < cs.len()
        invariant
            k <= cs@.len(),
            total == encode_utf8(cs@.take(k as int)).len(),
            total <= 4 * k,
        decreases cs.len() - k,
    {
        let w = crate::encoding::utf8_width(cs[k]);
        proof {
            crate::encoding::lemma_encode_utf8_concat(cs@.take(k as int), seq![cs@[k as int]]);
            crate::encoding::lemma_encode_utf8_single(cs@[k as int]);
            assert(cs@.take(k as int) + seq![cs@[k as int]] =~= cs@.take(k + 1));
        }
        total = total + w as u128;
        k = k + 1;
    }
    assert(cs@.take(cs@.len() as int) =~= cs@);
    total
}

impl WplSep {
    /// Reads a raw string, else a quoted string, else the run of characters
    /// whose low byte is none of the bytes of `end1` and `end2`.
    pub fn read_until_any_char<'a>(end1: &str, end2: &str, data: &mut &'a str) -> (r: WResult<
        &'a str,
    >)
        ensures
            ({
                let (b, e, n) = any_char_span(old(data)@, encode_utf8(end1@), encode_utf8(end2@));
                r matches Ok(v) && v@ == old(data)@.subrange(b, e) && final(data)@ == old(data)@.skip(n)
            }),
    {
        let ends1 = end1.as_bytes();
        let ends2 = end2.as_bytes();
        let cs = chars_of(*data);
        match quoted_or_exec(&cs) {
            Some((b, e, n)) => Ok(take_range(data, b, e, n)),
            None => {
                let mut k: usize = 0;
                while k < cs.len() && !stop_char(ends1, ends2, cs[k])
                    invariant
                        cs@ == data@,
                        k <= cs@.len(),
                        ends1@ == encode_utf8(end1@),
                        ends2@ == encode_utf8(end2@),
                        forall|j: int|
                            0 <= j < k ==> !is_stop_char(#[trigger] cs@[j], ends1@, ends2@),
                    decreases cs.len() - k,
                {
                    k = k + 1;
                }
                proof {
                    lemma_free_len(cs@, ends1@, ends2@, k as int);
                }
                Ok(take_range(data, 0, k, k))
            },
        }
    }

    /// Reads up to the separator (not consuming it). With a second terminator,
    /// the nearest of the two ends the read; quoted and raw strings are read
    /// whole; without any terminator the rest of the input is read.
    pub fn read_until_sep(&self, data: &mut &str) -> (r: WResult<String>)
        ensures
            match read_until_spec(self@, old(data)@) {
                Some((b, e, n)) => r matches Ok(v) && v@ == old(data)@.subrange(b, e) && final(data)@ == old(data)@.skip(n),
                None => r is Err,
            },
    {
        let cs = chars_of(*data);
        let n = cs.len();
        if self.is_to_end() {
            let v = take_range(data, 0, n, n);
            return Ok(v.to_owned());
        }
        let sep_s = self.sep_str();
        let sep = chars_of(sep_s);
        match &self.ups_val {
            Some(ups) => {
                let u = chars_of(ups.as_str());
                if utf8_len_of(&sep) == 1 && utf8_len_of(&u) == 1 {
                    let v = WplSep::read_until_any_char(sep_s, ups.as_str(), data);
                    return match v {
                        Ok(x) => Ok(x.to_owned()),
                        Err(e) => Err(e),
                    };
                }
                let q1 = ['"'];
                let q2 = ['r', '#', '"'];
                let q3 = ['r', '"'];
                assert(q1@ =~= seq!['"']);
                assert(q2@ =~= seq!['r', '#', '"']);
                assert(q3@ =~= seq!['r', '"']);
                if matches_at(&cs, 0, &q1) || matches_at(&cs, 0, &q2) || matches_at(&cs, 0, &q3) {
                    return match quoted_or_exec(&cs) {
                        Some((b, e, m)) => Ok(take_range(data, b, e, m).to_owned()),
                        None => Err(ParseFail::expected("quoted string")),
                    };
                }
                let p = find(&cs, &sep, 0);
                let q = find(&cs, &u, 0);
                proof {
                    lemma_find_bounds(cs@, sep@, 0);
                    lemma_find_bounds(cs@, u@, 0);
                }
                let k = match (p, q) {
                    (Some(i), Some(j)) => if i <= j {
                        i
                    } else {
                        j
                    },
                    (Some(i), None) => i,
                    (None, Some(j)) => j,
                    (None, None) => n,
                };
                Ok(take_range(data, 0, k, k).to_owned())
            },
            None => {
                match quoted_or_exec(&cs) {
                    Some((b, e, m)) => Ok(take_range(data, b, e, m).to_owned()),
                    None => {
                        let p = find(&cs, &sep, 0);
                        proof {
                            lemma_find_bounds(cs@, sep@, 0);
                        }
                        let k = match p {
                            Some(i) => i,
                            None => n,
                        };
                        Ok(take_range(data, 0, k, k).to_owned())
                    },
                }
            },
        }
    }

    /// Reads exactly `num` non-empty items, each ending before the next
    /// separator, the separators between them included in the result
    /// (the items joined by the separator); the separator after the last
    /// item is not consumed. `num == 0` reads nothing.
    pub fn read_until_sep_repeat(&self, num: usize, data: &mut &str) -> (r: WResult<String>)
        ensures
            match repeat_span(old(data)@, sep_text(self@), num as nat) {
                Some(n) => r matches Ok(v) && took(old(data)@, final(data)@, v@, n),
                None => r is Err && final(data)@ == old(data)@,
            },
    {
        let cs = chars_of(*data);
        let sep = chars_of(self.sep_str());
        if num == 0 {
            let v = take_range(data, 0, 0, 0);
            assert(v@ =~= old(data)@.take(0));
            return Ok(v.to_owned());
        }
        let mut p: usize = 0;
        let mut last: usize = 0;
        let mut j: usize = 0;
        assert(cs@.len() == cs.len());
        while j < num
            invariant
                cs@ == data@,
                data@ == old(data)@,
                cs@.len() == cs.len(),
                sep@ == sep_text(self@),
                j <= num,
                repeat_pos(cs@, sep@, j as nat) == Some(p as int),
                p <= cs@.len(),
                j > 0 ==> last + sep@.len() == p,
            decreases num - j,
        {
            match find(&cs, &sep, p) {
                Some(q) => {
                    proof {
                        lemma_find_bounds(cs@, sep@, p as int);
                    }
                    if q > p {
                        last = q;
                        p = q + sep.len();
                        j = j + 1;
                    } else {
                        proof {
                            assert(repeat_pos(cs@, sep@, (j + 1) as nat) is None);
                            lemma_repeat_none(cs@, sep@, (j + 1) as nat, num as nat);
                        }
                        return Err(ParseFail::expected("take_until"));
                    }
                },
                None => {
                    proof {
                        assert(repeat_pos(cs@, sep@, (j + 1) as nat) is None);
                        lemma_repeat_none(cs@, sep@, (j + 1) as nat, num as nat);
                    }
                    return Err(ParseFail::expected("take_until"));
                },
            }
        }
        let v = take_range(data, 0, last, last);
        Ok(v.to_owned())
    }
}

/// A value shown in WPL syntax.
pub struct WplFmt<T>(pub T);

/// A value shown as generated data.
pub struct GenFmt<T>(pub T);

/// A separator as written in WPL: each character but spaces behind a `\`.
pub open spec fn escaped_sep(s: Seq<char>) -> Seq<char>
    decreases s.len(),
{
    if s.len() == 0 {
        Seq::empty()
    } else {
        escaped_sep(s.drop_last()) + if s.last() != ' ' {
            seq!['\\', s.last()]
        } else {
            Seq::empty()
        }
    }
}

impl<'a> WplFmt<&'a WplSep> {
    /// The separator in WPL syntax; nothing for an inferred separator.
    pub fn fmt_string(&self) -> (r: String)
        ensures
            r@ == if self.0@.infer {
                Seq::empty()
            } else {
                escaped_sep(sep_text(self.0@))
            },
    {
        let mut out = String::new();
        if !self.0.infer {
            let cs = chars_of(self.0.sep_str());
            let mut i: usize = 0;
            assert(cs@.take(0) =~= Seq::<char>::empty());
            while i < cs.len()
                invariant
                    i <= cs@.len(),
                    out@ == escaped_sep(cs@.take(i as int)),
                decreases cs.len() - i,
            {
                let c = cs[i];
                if c != ' ' {
                    crate::text::push_char(&mut out, '\\');
                    crate::text::push_char(&mut out, c);
                }
                assert(cs@.take(i + 1).drop_last() =~= cs@.take(i as int));
                i = i + 1;
                assert(out@ =~= escaped_sep(cs@.take(i as int)));
            }
            assert(cs@.take(cs@.len() as int) =~= cs@);
        }
        out
    }
}

impl<'a> GenFmt<&'a WplSep> {
    /// The separator text itself.
    pub fn fmt_string(&self) -> (r: String)
        ensures
            r@ == sep_text(self.0@),
    {
        self.0.sep_str().to_owned()
    }
}

/// `i` is where `find_spec` finds `pat` from 0: no occurrence before it, and
/// one at it unless `pat` occurs nowhere (then `i` is the end of `s`).
proof fn lemma_find_first(s: Seq<char>, pat: Seq<char>)
    ensures
        match find_spec(s, pat, 0) {
            Some(i) => 0 <= i <= s.len() && crate::text::occurs_at(s, pat, i) && forall|j: int|
                0 <= j < i ==> !crate::text::occurs_at(s, pat, j),
            None => forall|j: int| 0 <= j ==> !crate::text::occurs_at(s, pat, j),
        },
{
    if exists|i: int| crate::text::first_occurrence_from(s, pat, 0, i) {
        let i = choose|i: int| crate::text::first_occurrence_from(s, pat, 0, i);
        assert(crate::text::first_occurrence_from(s, pat, 0, i));
    } else {
        assert forall|j: int| 0 <= j implies !crate::text::occurs_at(s, pat, j) by {
            if crate::text::occurs_at(s, pat, j) {
                lemma_no_first(s, pat, j);
            }
        }
    }
}

/// An occurrence at `j` means there is a first one.
proof fn lemma_no_first(s: Seq<char>, pat: Seq<char>, j: int)
    requires
        0 <= j,
        crate::text::occurs_at(s, pat, j),
    ensures
        exists|i: int| crate::text::first_occurrence_from(s, pat, 0, i),
    decreases j,
{
    if exists|k: int| 0 <= k < j && crate::text::occurs_at(s, pat, k) {
        let k = choose|k: int| 0 <= k < j && crate::text::occurs_at(s, pat, k);
        lemma_no_first(s, pat, k);
    } else {
        assert(crate::text::first_occurrence_from(s, pat, 0, j));
    }
}

/// With a second terminator `u` (and a separator or terminator longer than
/// one byte), text that does not open a quoted or raw string is cut at the
/// earliest end: the text read holds no occurrence of the separator or of `u`,
/// and what is left is empty or opens with one of them.
pub proof fn law_read_until_nearest_end(v: WplSepView, u: Seq<char>, s: Seq<char>)
    requires
        !sep_is_end(v),
        v.ups == Some(u),
        !(encode_utf8(sep_text(v)).len() == 1 && encode_utf8(u).len() == 1),
        !(starts_with(s, seq!['"']) || starts_with(s, seq!['r', '#', '"']) || starts_with(
            s,
            seq!['r', '"'],
        )),
    ensures
        read_until_spec(v, s) matches Some((b, e, n)) && b == 0 && e == n && 0 <= n <= s.len()
            && (forall|j: int|
            0 <= j < n ==> !crate::text::occurs_at(s, sep_text(v), j) && !crate::text::occurs_at(
                s,
                u,
                j,
            )) && (n == s.len() || crate::text::occurs_at(s, sep_text(v), n)
            || crate::text::occurs_at(s, u, n)),
{
    lemma_find_first(s, sep_text(v));
    lemma_find_first(s, u);
}

/// Without a second terminator, text that does not open a quoted or raw string
/// is cut at the first separator: the text read holds no occurrence of it, and
/// what is left is empty or opens with it.
pub proof fn law_read_until_first_sep(v: WplSepView, s: Seq<char>)
    requires
        !sep_is_end(v),
        v.ups is None,
        quoted_or(s) is None,
    ensures
        read_until_spec(v, s) matches Some((b, e, n)) && b == 0 && e == n && 0 <= n <= s.len()
            && (forall|j: int| 0 <= j < n ==> !crate::text::occurs_at(s, sep_text(v), j)) && (n
            == s.len() || crate::text::occurs_at(s, sep_text(v), n)),
{
    lemma_find_first(s, sep_text(v));
}

proof fn lemma_free_prefix(s: Seq<char>, e1: Seq<u8>, e2: Seq<u8>) -> (n: int)
    ensures
        is_free_span(s, e1, e2, n),
        free_len(s, e1, e2) == n,
    decreases s.len(),
{
    let n = if s.len() == 0 || is_stop_char(s[0], e1, e2) {
        0
    } else {
        let m = lemma_free_prefix(s.skip(1), e1, e2);
        assert forall|j: int| 0 <= j < m + 1 implies !is_stop_char(#[trigger] s[j], e1, e2) by {
            if j > 0 {
                assert(s[j] == s.skip(1)[j - 1]);
            }
        }
        if m + 1 < s.len() {
            assert(s[m + 1] == s.skip(1)[m]);
        }
        m + 1
    };
    lemma_free_len(s, e1, e2, n);
    n
}

/// With a one-byte separator and a one-byte second terminator, text that does
/// not open a quoted or raw string is cut at the first character whose low
/// byte is either of them: no such character is read, and what is left is
/// empty or opens with one.
pub proof fn law_read_until_first_stop_byte(v: WplSepView, u: Seq<char>, s: Seq<char>)
    requires
        !sep_is_end(v),
        v.ups == Some(u),
        encode_utf8(sep_text(v)).len() == 1,
        encode_utf8(u).len() == 1,
        quoted_or(s) is None,
    ensures
        ({
            let b1 = encode_utf8(sep_text(v))[0];
            let b2 = encode_utf8(u)[0];
            read_until_spec(v, s) matches Some((b, e, n)) && b == 0 && e == n && 0 <= n <= s.len()
                && (forall|j: int|
                0 <= j < n ==> low_byte(#[trigger] s[j]) != b1 && low_byte(s[j]) != b2) && (n
                == s.len() || low_byte(s[n]) == b1 || low_byte(s[n]) == b2)
        }),
{
    let e1 = encode_utf8(sep_text(v));
    let e2 = encode_utf8(u);
    let n = lemma_free_prefix(s, e1, e2);
    assert(e1 =~= seq![e1[0]]);
    assert(e2 =~= seq![e2[0]]);
    assert forall|j: int| 0 <= j < n implies low_byte(#[trigger] s[j]) != e1[0] && low_byte(s[j])
        != e2[0] by {
        assert(!is_stop_char(s[j], e1, e2));
        if low_byte(s[j]) == e1[0] {
            assert(e1.contains(low_byte(s[j])));
        }
        if low_byte(s[j]) == e2[0] {
            assert(e2.contains(low_byte(s[j])));
        }
    }
    if n < s.len() {
        assert(is_stop_char(s[n], e1, e2));
        if e1.contains(low_byte(s[n])) {
            let k = choose|k: int| 0 <= k < e1.len() && e1[k] == low_byte(s[n]);
        }
        if e2.contains(low_byte(s[n])) {
            let k = choose|k: int| 0 <= k < e2.len() && e2[k] == low_byte(s[n]);
        }
    }
}

} // verus!


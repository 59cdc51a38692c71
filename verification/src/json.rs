//! Pieces of JSON flattening: the path of a nested value, the nesting bound,
//! the names of array items, and string values kept with their escapes.
use vstd::prelude::*;
use crate::error::{decimal, digit_char, push_decimal};
use crate::pipe::{DataField, FieldValue, FieldValueView};
use crate::text::{chars_of, push_char, split_chars, string_of_chars, ParseFail, WResult};

verus! {

/// Flattens JSON documents into fields named by their paths.
pub struct JsonProc {}

/// The path of `cur` under `parent`: `parent/cur`, or `cur` at the top.
pub open spec fn json_path_of(parent: Seq<char>, cur: Seq<char>) -> Seq<char> {
    if parent.len() == 0 {
        cur
    } else {
        parent + seq!['/'] + cur
    }
}

/// The name of item `i` of the array named `name`: `name[i]`.
pub open spec fn item_name_of(name: Seq<char>, i: nat) -> Seq<char> {
    name + seq!['['] + decimal(i) + seq![']']
}

/// `s` without one leading and one trailing `"`, where they are there.
pub open spec fn unquoted(s: Seq<char>) -> Seq<char> {
    let a = if s.len() > 0 && s[0] == '"' {
        s.skip(1)
    } else {
        s
    };
    if a.len() > 0 && a.last() == '"' {
        a.drop_last()
    } else {
        a
    }
}

/// The characters with the Unicode property White_Space.
pub open spec fn unicode_white_space(c: char) -> bool {
    let u = c as u32;
    ||| 0x09 <= u <= 0x0D
    ||| u == 0x20
    ||| u == 0x85
    ||| u == 0xA0
    ||| u == 0x1680
    ||| 0x2000 <= u <= 0x200A
    ||| u == 0x2028
    ||| u == 0x2029
    ||| u == 0x202F
    ||| u == 0x205F
    ||| u == 0x3000
}

/// `s` without its leading white space.
pub open spec fn trim_start_ws(s: Seq<char>) -> Seq<char>
    decreases s.len(),
{
    if s.len() > 0 && unicode_white_space(s[0]) {
        trim_start_ws(s.skip(1))
    } else {
        s
    }
}

/// `s` without its trailing white space.
pub open spec fn trim_end_ws(s: Seq<char>) -> Seq<char>
    decreases s.len(),
{
    if s.len() > 0 && unicode_white_space(s.last()) {
        trim_end_ws(s.drop_last())
    } else {
        s
    }
}

/// `s` without leading and trailing white space.
pub open spec fn trimmed(s: Seq<char>) -> Seq<char> {
    trim_end_ws(trim_start_ws(s))
}

fn is_white_space(c: char) -> (r: bool)
    ensures
        r == unicode_white_space(c),
{
    let u = c as u32;
    (0x09 <= u && u <= 0x0D) || u == 0x20 || u == 0x85 || u == 0xA0 || u == 0x1680 || (0x2000
        <= u && u <= 0x200A) || u == 0x2028 || u == 0x2029 || u == 0x202F || u == 0x205F || u
        == 0x3000
}

proof fn lemma_trim_start(s: Seq<char>, a: int)
    requires
        0 <= a <= s.len(),
        forall|j: int| 0 <= j < a ==> unicode_white_space(#[trigger] s[j]),
        a == s.len() || !unicode_white_space(s[a]),
    ensures
        trim_start_ws(s) == s.skip(a),
    decreases a,
{
    if a == 0 {
        assert(s.skip(0) =~= s);
    } else {
        let t = s.skip(1);
        assert forall|j: int| 0 <= j < a - 1 implies unicode_white_space(#[trigger] t[j]) by {
            assert(t[j] == s[j + 1]);
        }
        if a < s.len() {
            assert(t[a - 1] == s[a]);
        }
        lemma_trim_start(t, a - 1);
        assert(t.skip(a - 1) =~= s.skip(a));
    }
}

proof fn lemma_trim_end(t: Seq<char>, b: int)
    requires
        0 <= b <= t.len(),
        forall|j: int| b <= j < t.len() ==> unicode_white_space(#[trigger] t[j]),
        b == 0 || !unicode_white_space(t[b - 1]),
    ensures
        trim_end_ws(t) == t.take(b),
    decreases t.len() - b,
{
    if b == t.len() {
        assert(t.take(b) =~= t);
    } else {
        let u = t.drop_last();
        assert(unicode_white_space(t[t.len() - 1]));
        assert forall|j: int| b <= j < u.len() implies unicode_white_space(#[trigger] u[j]) by {
            assert(u[j] == t[j]);
        }
        if b > 0 {
            assert(u[b - 1] == t[b - 1]);
        }
        lemma_trim_end(u, b);
        assert(u.take(b) =~= t.take(b));
    }
}

/// `s` without leading and trailing white space (the characters with the
/// Unicode property White_Space), as `str::trim` gives it.
pub fn trim_str(s: &str) -> (r: &str)
    ensures
        r@ == trimmed(s@),
{
    let cs = chars_of(s);
    let n = cs.len();
    let mut a: usize = 0;
    while a < n && is_white_space(cs[a])
        invariant
            n == cs@.len(),
            cs@ == s@,
            a <= n,
            forall|j: int| 0 <= j < a ==> unicode_white_space(#[trigger] cs@[j]),
        decreases n - a,
    {
        a = a + 1;
    }
    let mut b: usize = n;
    while b > a && is_white_space(cs[b - 1])
        invariant
            n == cs@.len(),
            cs@ == s@,
            a <= b <= n,
            forall|j: int| b <= j < n ==> unicode_white_space(#[trigger] cs@[j]),
        decreases b - a,
    {
        b = b - 1;
    }
    proof {
        lemma_trim_start(s@, a as int);
        let t = s@.skip(a as int);
        assert forall|j: int| b - a <= j < t.len() implies unicode_white_space(#[trigger] t[j]) by {
            assert(t[j] == s@[j + a]);
        }
        if b > a {
            assert(t[b - a - 1] == s@[b - 1]);
        }
        lemma_trim_end(t, b - a);
    }
    let (_, rest) = split_chars(s, a);
    let (mid, _) = split_chars(rest, b - a);
    mid
}

impl JsonProc {
    /// Nesting allowed when the field sets no bound.
    pub const MAX_DEPTH: usize = 128;

    /// The nesting bound: the field count if set, else the length if set, else `MAX_DEPTH`.
    pub fn max_depth(field_cnt: Option<usize>, length: Option<usize>) -> (r: usize)
        ensures
            r == match field_cnt {
                Some(c) => c,
                None => match length {
                    Some(l) => l,
                    None => 128,
                },
            },
    {
        if let Some(cnt) = field_cnt {
            cnt
        } else if let Some(len) = length {
            len
        } else {
            Self::MAX_DEPTH
        }
    }

    /// The path of `cur` under `parent`.
    pub fn json_path(parent: &str, cur: &str) -> (r: String)
        ensures
            r@ == json_path_of(parent@, cur@),
    {
        if parent.is_empty() {
            return cur.to_owned();
        }
        let mut path = parent.to_owned();
        path.append("/");
        path.append(cur);
        proof {
            reveal_strlit("/");
        }
        path
    }

    /// The name of item `i` of the array named `name`.
    pub fn item_name(name: &str, i: usize) -> (r: String)
        ensures
            r@ == item_name_of(name@, i as nat),
    {
        let mut s = name.to_owned();
        s.append("[");
        push_decimal(&mut s, i);
        s.append("]");
        proof {
            reveal_strlit("[");
            reveal_strlit("]");
        }
        s
    }

    /// A JSON string value as written, escapes kept: the serialised text `raw`,
    /// trimmed, without its surrounding quotes.
    pub fn string_preserve_escapes(raw: &str) -> (r: String)
        ensures
            r@ == unquoted(trimmed(raw@)),
    {
        let t = trim_str(raw);
        let cs = chars_of(t);
        let n = cs.len();
        let mut b: usize = 0;
        if n > 0 && cs[0] == '"' {
            b = 1;
        }
        let mut e: usize = n;
        if e > b && cs[e - 1] == '"' {
            e = e - 1;
        }
        let r = string_of_chars(&cs.as_slice()[b..e]);
        proof {
            let a = if cs@.len() > 0 && cs@[0] == '"' {
                cs@.skip(1)
            } else {
                cs@
            };
            assert(a =~= cs@.subrange(b as int, n as int));
            if a.len() > 0 && a.last() == '"' {
                assert(a.drop_last() =~= cs@.subrange(b as int, e as int));
            } else {
                assert(a =~= cs@.subrange(b as int, e as int));
            }
        }
        r
    }
}


/// A JSON number as the JSON reader keeps it.
#[derive(Debug)]
pub enum JsonNumber {
    /// A non-negative integer.
    PosInt(u64),
    /// A negative integer.
    NegInt(i64),
    /// Any other number, held as the bits of its IEEE 754 double.
    Float(u64),
}

/// A JSON value. A string is held in its serialised form, quotes and escapes
/// included; an object's members are in the order the reader gives them.
#[derive(Debug)]
pub enum JsonValue {
    Null,
    Bool(bool),
    Number(JsonNumber),
    Str(String),
    Array(Vec<JsonValue>),
    Object(Vec<(String, JsonValue)>),
}

/// The fields of a sequence of parsed fields, as names and values.
pub open spec fn fields_view(s: Seq<DataField>) -> Seq<(Seq<char>, FieldValueView)> {
    s.map_values(|f: DataField| f@)
}

/// The field value of a JSON number: integers that fit an `i64` are numbers,
/// larger ones their decimal text, other numbers floats.
pub open spec fn number_field(n: JsonNumber) -> FieldValueView {
    match n {
        JsonNumber::PosInt(u) => if u <= i64::MAX {
            FieldValueView::Digit(u as i64)
        } else {
            FieldValueView::Chars(decimal(u as nat))
        },
        JsonNumber::NegInt(i) => FieldValueView::Digit(i),
        JsonNumber::Float(b) => FieldValueView::Float(b),
    }
}

/// How flattening ends: with every field pushed, at a value nested deeper than
/// the bound, or at a scalar or array that the exact check admits no field for.
pub enum FlatEnd {
    Done,
    TooDeep,
    Mismatch,
}

/// What flattening value `v`, named `name` under `parent` at nesting `depth`,
/// adds when no sub-field is configured: the fields pushed, and whether it
/// succeeds. It fails where the value is nested deeper than `max`, or where
/// `exact` meets a value that no configuration allows; the fields pushed before
/// the failure stay.
pub open spec fn flat_value(
    parent: Seq<char>,
    v: JsonValue,
    name: Seq<char>,
    exact: bool,
    depth: nat,
    max: nat,
) -> (Seq<(Seq<char>, FieldValueView)>, FlatEnd)
    decreases v, 0int,
{
    if depth > max {
        (Seq::empty(), FlatEnd::TooDeep)
    } else {
        let p = json_path_of(parent, name);
        match v {
            JsonValue::Null => (Seq::empty(), FlatEnd::Done),
            JsonValue::Bool(b) => if exact {
                (Seq::empty(), FlatEnd::Mismatch)
            } else {
                (seq![(p, FieldValueView::Bool(b))], FlatEnd::Done)
            },
            JsonValue::Number(n) => if exact {
                (Seq::empty(), FlatEnd::Mismatch)
            } else {
                (seq![(p, number_field(n))], FlatEnd::Done)
            },
            JsonValue::Str(raw) => if exact {
                (Seq::empty(), FlatEnd::Mismatch)
            } else {
                (seq![(p, FieldValueView::Chars(unquoted(trimmed(raw@))))], FlatEnd::Done)
            },
            JsonValue::Array(items) => if exact {
                (Seq::empty(), FlatEnd::Mismatch)
            } else {
                flat_items(parent, items@, name, 0, depth + 1, max)
            },
            JsonValue::Object(members) => flat_members(p, members@, exact, 0, depth + 2, max),
        }
    }
}

/// What array items `i..`, each named `name[k]` under `parent`, add: up to and
/// including the first item that fails.
pub open spec fn flat_items(
    parent: Seq<char>,
    items: Seq<JsonValue>,
    name: Seq<char>,
    i: int,
    depth: nat,
    max: nat,
) -> (Seq<(Seq<char>, FieldValueView)>, FlatEnd)
    decreases items, items.len() - i,
{
    if i < 0 || i >= items.len() {
        (Seq::empty(), FlatEnd::Done)
    } else {
        let a = flat_value(parent, items[i], item_name_of(name, i as nat), false, depth, max);
        if !(a.1 is Done) {
            a
        } else {
            let b = flat_items(parent, items, name, i + 1, depth, max);
            (a.0 + b.0, b.1)
        }
    }
}

/// What object members `i..`, each named by its key under `path`, add: up to
/// and including the first member that fails.
pub open spec fn flat_members(
    path: Seq<char>,
    members: Seq<(String, JsonValue)>,
    exact: bool,
    i: int,
    depth: nat,
    max: nat,
) -> (Seq<(Seq<char>, FieldValueView)>, FlatEnd)
    decreases members, members.len() - i,
{
    if i < 0 || i >= members.len() {
        (Seq::empty(), FlatEnd::Done)
    } else {
        let a = flat_value(path, members[i].1, members[i].0@, exact, depth, max);
        if !(a.1 is Done) {
            a
        } else {
            let b = flat_members(path, members, exact, i + 1, depth, max);
            (a.0 + b.0, b.1)
        }
    }
}

/// Appends the decimal notation of `n`.
fn push_decimal_u64(out: &mut String, n: u64)
    ensures
        final(out)@ == old(out)@ + decimal(n as nat),
    decreases n,
{
    if n >= 10 {
        push_decimal_u64(out, n / 10);
    }
    let d = (n % 10) as usize;
    let mut tmp = String::new();
    push_decimal(&mut tmp, d);
    out.append(tmp.as_str());
    assert(final(out)@ =~= old(out)@ + decimal(n as nat)) by {
        if n >= 10 {
            assert(old(out)@ + decimal(n as nat) =~= old(out)@ + decimal((n / 10) as nat) + decimal(
                (n % 10) as nat,
            ));
        }
    }
}

fn number_value(n: &JsonNumber) -> (r: FieldValue)
    ensures
        r@ == number_field(*n),
{
    match n {
        JsonNumber::PosInt(u) => {
            if *u <= 9223372036854775807u64 {
                FieldValue::Digit(*u as i64)
            } else {
                let mut s = String::new();
                push_decimal_u64(&mut s, *u);
                FieldValue::Chars(s)
            }
        },
        JsonNumber::NegInt(i) => FieldValue::Digit(*i),
        JsonNumber::Float(b) => FieldValue::Float(*b),
    }
}

fn push_field(out: &mut Vec<DataField>, f: DataField)
    ensures
        final(out)@ == old(out)@.push(f),
        fields_view(final(out)@) == fields_view(old(out)@).push(f@),
{
    let ghost g = f;
    out.push(f);
    assert(fields_view(out@) =~= fields_view(old(out)@).push(g@));
}

/// The message of the error that ends flattening at `end`.
pub open spec fn flat_end_text(end: FlatEnd) -> Seq<char> {
    match end {
        FlatEnd::TooDeep => "json nested too deep"@,
        _ => "exact_json mismatch"@,
    }
}

impl JsonProc {
    /// Flattens `v`, named `name` under `parent`, into `out`, when no sub-field
    /// is configured: scalars become one field each, array items are named
    /// `name[i]`, object members are named by their path. On failure `out`
    /// keeps the fields pushed before it, and the error says whether a value
    /// was nested too deep or failed the exact check.
    pub fn proc_value(
        parent: &str,
        v: &JsonValue,
        name: &str,
        exact: bool,
        out: &mut Vec<DataField>,
        max_depth: usize,
    ) -> (r: WResult<()>)
        requires
            max_depth < usize::MAX - 1,
        ensures
            final(out)@.len() >= old(out)@.len(),
            final(out)@.subrange(0, old(out)@.len() as int) == old(out)@,
            fields_view(final(out)@) == fields_view(old(out)@) + flat_value(
                parent@,
                *v,
                name@,
                exact,
                0,
                max_depth as nat,
            ).0,
            r is Ok <==> flat_value(parent@, *v, name@, exact, 0, max_depth as nat).1 is Done,
            r matches Err(e) ==> e.context@ == flat_end_text(
                flat_value(parent@, *v, name@, exact, 0, max_depth as nat).1,
            ),
    {
        Self::proc_value_inner(parent, v, name, exact, out, 0, max_depth)
    }

    fn proc_value_inner(
        parent: &str,
        v: &JsonValue,
        name: &str,
        exact: bool,
        out: &mut Vec<DataField>,
        depth: usize,
        max_depth: usize,
    ) -> (r: WResult<()>)
        requires
            max_depth < usize::MAX - 1,
        ensures
            final(out)@.len() >= old(out)@.len(),
            final(out)@.subrange(0, old(out)@.len() as int) == old(out)@,
            fields_view(final(out)@) == fields_view(old(out)@) + flat_value(
                parent@,
                *v,
                name@,
                exact,
                depth as nat,
                max_depth as nat,
            ).0,
            r is Ok <==> flat_value(parent@, *v, name@, exact, depth as nat, max_depth as nat).1 is Done,
            depth > max_depth ==> final(out)@ == old(out)@,
            r matches Err(e) ==> e.context@ == flat_end_text(
                flat_value(parent@, *v, name@, exact, depth as nat, max_depth as nat).1,
            ),
        decreases v,
    {
        let ghost start = out@;
        if depth > max_depth {
            assert(fields_view(out@) =~= fields_view(start) + Seq::empty());
            assert(out@.subrange(0, start.len() as int) =~= start);
            return Err(ParseFail::expected("json nested too deep"));
        }
        let j_path = Self::json_path(parent, name);
        match v {
            JsonValue::Null => {
                assert(fields_view(out@) =~= fields_view(start) + Seq::empty());
                assert(out@.subrange(0, start.len() as int) =~= start);
                Ok(())
            },
            JsonValue::Bool(b) => {
                if let Err(e) = Self::exact_check(exact, false) {
                    assert(fields_view(out@) =~= fields_view(start) + Seq::empty());
                    assert(out@.subrange(0, start.len() as int) =~= start);
                    return Err(e);
                }
                push_field(out, DataField { name: j_path, value: FieldValue::Bool(*b) });
                assert(out@.subrange(0, start.len() as int) =~= start);
                Ok(())
            },
            JsonValue::Number(n) => {
                if let Err(e) = Self::exact_check(exact, false) {
                    assert(fields_view(out@) =~= fields_view(start) + Seq::empty());
                    assert(out@.subrange(0, start.len() as int) =~= start);
                    return Err(e);
                }
                let value = number_value(n);
                push_field(out, DataField { name: j_path, value });
                assert(out@.subrange(0, start.len() as int) =~= start);
                Ok(())
            },
            JsonValue::Str(raw) => {
                if let Err(e) = Self::exact_check(exact, false) {
                    assert(fields_view(out@) =~= fields_view(start) + Seq::empty());
                    assert(out@.subrange(0, start.len() as int) =~= start);
                    return Err(e);
                }
                let text = Self::string_preserve_escapes(raw.as_str());
                push_field(out, DataField { name: j_path, value: FieldValue::Chars(text) });
                assert(out@.subrange(0, start.len() as int) =~= start);
                Ok(())
            },
            JsonValue::Array(items) => {
                if let Err(e) = Self::exact_check(exact, false) {
                    assert(fields_view(out@) =~= fields_view(start) + Seq::empty());
                    assert(out@.subrange(0, start.len() as int) =~= start);
                    return Err(e);
                }
                let n = items.len();
                let mut i: usize = 0;
                let ghost mut done: Seq<(Seq<char>, FieldValueView)> = Seq::empty();
                assert(fields_view(start) + done =~= fields_view(start));
                assert(out@.subrange(0, start.len() as int) =~= start);
                proof {
                    let f = flat_items(parent@, items@, name@, 0, (depth + 1) as nat, max_depth as nat);
                    assert(done + f.0 =~= f.0);
                }
                while i < n
                    invariant
                        n == items@.len(),
                        *v == JsonValue::Array(*items),
                        !exact,
                        i <= n,
                        depth <= max_depth < usize::MAX - 1,
                        start == old(out)@,
                        out@.len() >= start.len(),
                        out@.subrange(0, start.len() as int) == start,
                        fields_view(out@) == fields_view(start) + done,
                        flat_items(parent@, items@, name@, 0, (depth + 1) as nat, max_depth as nat)
                            == ({
                            let rest = flat_items(
                                parent@,
                                items@,
                                name@,
                                i as int,
                                (depth + 1) as nat,
                                max_depth as nat,
                            );
                            (done + rest.0, rest.1)
                        }),
                    decreases n - i,
                {
                    let item_name = Self::item_name(name, i);
                    let ghost before = out@;
                    proof {
                        assert((*v)->Array_0 == *items);
                        assert(decreases_to!(*v => (*v)->Array_0));
                        assert(decreases_to!(*items => items@));
                        assert(decreases_to!(items@ => items@[i as int]));
                    }
                    let res = Self::proc_value_inner(
                        parent,
                        &items[i],
                        item_name.as_str(),
                        false,
                        out,
                        depth + 1,
                        max_depth,
                    );
                    let ghost a = flat_value(
                        parent@,
                        items@[i as int],
                        item_name_of(name@, i as nat),
                        false,
                        (depth + 1) as nat,
                        max_depth as nat,
                    );
                    proof {
                        assert(fields_view(out@) =~= fields_view(start) + (done + a.0));
                        assert(out@.subrange(0, start.len() as int) =~= before.subrange(
                            0,
                            start.len() as int,
                        ));
                    }
                    match res {
                        Ok(()) => {},
                        Err(e) => {
                            return Err(e);
                        },
                    }
                    proof {
                        let b = flat_items(
                            parent@,
                            items@,
                            name@,
                            i + 1,
                            (depth + 1) as nat,
                            max_depth as nat,
                        );
                        assert(done + (a.0 + b.0) =~= (done + a.0) + b.0);
                        done = done + a.0;
                    }
                    i = i + 1;
                }
                assert(done + Seq::empty() =~= done);
                Ok(())
            },
            JsonValue::Object(members) => {
                let n = members.len();
                let mut i: usize = 0;
                let ghost mut done: Seq<(Seq<char>, FieldValueView)> = Seq::empty();
                assert(fields_view(start) + done =~= fields_view(start));
                assert(out@.subrange(0, start.len() as int) =~= start);
                proof {
                    let f = flat_members(j_path@, members@, exact, 0, (depth + 2) as nat, max_depth as nat);
                    assert(done + f.0 =~= f.0);
                }
                while i < n
                    invariant
                        n == members@.len(),
                        *v == JsonValue::Object(*members),
                        i <= n,
                        depth <= max_depth < usize::MAX - 1,
                        j_path@ == json_path_of(parent@, name@),
                        start == old(out)@,
                        out@.len() >= start.len(),
                        out@.subrange(0, start.len() as int) == start,
                        fields_view(out@) == fields_view(start) + done,
                        flat_members(j_path@, members@, exact, 0, (depth + 2) as nat, max_depth as nat)
                            == ({
                            let rest = flat_members(
                                j_path@,
                                members@,
                                exact,
                                i as int,
                                (depth + 2) as nat,
                                max_depth as nat,
                            );
                            (done + rest.0, rest.1)
                        }),
                    decreases n - i,
                {
                    let ghost before = out@;
                    proof {
                        assert((*v)->Object_0 == *members);
                        assert(decreases_to!(*v => (*v)->Object_0));
                        assert(decreases_to!(*members => members@));
                        assert(decreases_to!(members@ => members@[i as int]));
                        assert(decreases_to!(members@[i as int] => members@[i as int].1));
                    }
                    let res = Self::proc_value_inner(
                        j_path.as_str(),
                        &members[i].1,
                        members[i].0.as_str(),
                        exact,
                        out,
                        depth + 2,
                        max_depth,
                    );
                    let ghost a = flat_value(
                        j_path@,
                        members@[i as int].1,
                        members@[i as int].0@,
                        exact,
                        (depth + 2) as nat,
                        max_depth as nat,
                    );
                    proof {
                        assert(fields_view(out@) =~= fields_view(start) + (done + a.0));
                        assert(out@.subrange(0, start.len() as int) =~= before.subrange(
                            0,
                            start.len() as int,
                        ));
                    }
                    match res {
                        Ok(()) => {},
                        Err(e) => {
                            return Err(e);
                        },
                    }
                    proof {
                        let b = flat_members(
                            j_path@,
                            members@,
                            exact,
                            i + 1,
                            (depth + 2) as nat,
                            max_depth as nat,
                        );
                        assert(done + (a.0 + b.0) =~= (done + a.0) + b.0);
                        done = done + a.0;
                    }
                    i = i + 1;
                }
                assert(done + Seq::empty() =~= done);
                Ok(())
            },
        }
    }
}

/// The configured paths with their optional flags, as text.
pub open spec fn conf_paths(s: Seq<(String, bool)>) -> Seq<(Seq<char>, bool)> {
    s.map_values(|e: (String, bool)| (e.0@, e.1))
}

/// The texts of `s`.
pub open spec fn texts(s: Seq<String>) -> Seq<Seq<char>> {
    s.map_values(|e: String| e@)
}

/// The name of the member directly below `prefix` that the configured path `k`
/// names, if `k` is `prefix` followed by one name without `/`.
pub open spec fn direct_child(prefix: Seq<char>, k: Seq<char>) -> Option<Seq<char>> {
    if prefix.len() <= k.len() && k.take(prefix.len() as int) == prefix {
        let rest = k.skip(prefix.len() as int);
        if rest.len() > 0 && !rest.contains('/') {
            Some(rest)
        } else {
            None
        }
    } else {
        None
    }
}

/// The members directly below `prefix` that non-optional configured paths
/// require, each once, in configuration order.
pub open spec fn required_children(prefix: Seq<char>, conf: Seq<(Seq<char>, bool)>) -> Seq<
    Seq<char>,
>
    decreases conf.len(),
{
    if conf.len() == 0 {
        Seq::empty()
    } else {
        let c = required_children(prefix, conf.drop_last());
        match direct_child(prefix, conf.last().0) {
            Some(child) => if !conf.last().1 && !c.contains(child) {
                c.push(child)
            } else {
                c
            },
            None => c,
        }
    }
}

/// The required members that `keys` lacks, in order.
pub open spec fn missing_children(req: Seq<Seq<char>>, keys: Seq<Seq<char>>) -> Seq<Seq<char>>
    decreases req.len(),
{
    if req.len() == 0 {
        Seq::empty()
    } else {
        let m = missing_children(req.drop_last(), keys);
        if keys.contains(req.last()) {
            m
        } else {
            m.push(req.last())
        }
    }
}

/// The texts of `ss` separated by `sep`.
pub open spec fn joined(ss: Seq<Seq<char>>, sep: Seq<char>) -> Seq<char>
    decreases ss.len(),
{
    if ss.len() == 0 {
        Seq::empty()
    } else if ss.len() == 1 {
        ss[0]
    } else {
        joined(ss.drop_last(), sep) + sep + ss.last()
    }
}

/// The report of required members missing from an object at `p_path`: their
/// names separated by `, `, written `p_path/{...}` below the top.
pub open spec fn missing_report(
    p_path: Seq<char>,
    conf: Seq<(Seq<char>, bool)>,
    keys: Seq<Seq<char>>,
) -> Option<Seq<char>> {
    let prefix = if p_path.len() == 0 {
        Seq::empty()
    } else {
        p_path + seq!['/']
    };
    let m = missing_children(required_children(prefix, conf), keys);
    if m.len() == 0 {
        None
    } else if p_path.len() == 0 {
        Some(joined(m, seq![',', ' ']))
    } else {
        Some(p_path + seq!['/', '{'] + joined(m, seq![',', ' ']) + seq!['}'])
    }
}

fn text_in(list: &Vec<String>, x: &String) -> (r: bool)
    ensures
        r == texts(list@).contains(x@),
{
    let mut i: usize = 0;
    while i < list.len()
        invariant
            i <= list@.len(),
            forall|j: int| 0 <= j < i ==> (#[trigger] list@[j])@ != x@,
        decreases list.len() - i,
    {
        if list[i] == *x {
            assert(texts(list@)[i as int] == x@);
            return true;
        }
        i = i + 1;
    }
    assert forall|j: int| 0 <= j < texts(list@).len() implies texts(list@)[j] != x@ by {
        assert(texts(list@)[j] == list@[j]@);
    }
    false
}

fn child_of(prefix: &[char], k: &str) -> (r: Option<String>)
    ensures
        match r {
            Some(c) => direct_child(prefix@, k@) == Some(c@),
            None => direct_child(prefix@, k@) is None,
        },
{
    let kc = chars_of(k);
    let n = prefix.len();
    if n > kc.len() {
        return None;
    }
    let mut i: usize = 0;
    while i < n
        invariant
            kc@ == k@,
            n == prefix@.len() <= kc@.len(),
            i <= n,
            forall|j: int| 0 <= j < i ==> kc@[j] == prefix@[j],
        decreases n - i,
    {
        if kc[i] != prefix[i] {
            proof {
                assert(kc@.take(n as int)[i as int] != prefix@[i as int]);
            }
            return None;
        }
        i = i + 1;
    }
    assert(kc@.take(n as int) =~= prefix@);
    if n == kc.len() {
        return None;
    }
    let mut j: usize = n;
    while j < kc.len()
        invariant
            kc@ == k@,
            n == prefix@.len(),
            kc@.take(n as int) == prefix@,
            n <= j <= kc@.len(),
            forall|t: int| n <= t < j ==> kc@[t] != '/',
        decreases kc.len() - j,
    {
        if kc[j] == '/' {
            proof {
                assert(kc@.skip(n as int)[j - n] == '/');
            }
            return None;
        }
        j = j + 1;
    }
    let rest = string_of_chars(&kc.as_slice()[n..kc.len()]);
    proof {
        assert(kc@.subrange(n as int, kc@.len() as int) =~= kc@.skip(n as int));
        assert forall|t: int| 0 <= t < kc@.skip(n as int).len() implies kc@.skip(n as int)[t]
            != '/' by {
            assert(kc@.skip(n as int)[t] == kc@[n + t]);
        }
    }
    Some(rest)
}

impl JsonProc {
    /// The exact check on a scalar or array at some path: in exact mode it must
    /// have a configured sub-field (`have_conf`), else flattening fails.
    pub fn exact_check(exact: bool, have_conf: bool) -> (r: WResult<()>)
        ensures
            r is Err <==> exact && !have_conf,
            r matches Err(e) ==> e.context@ == "exact_json mismatch"@,
    {
        if exact && !have_conf {
            return Err(ParseFail::expected("exact_json mismatch"));
        }
        Ok(())
    }

    /// The exact check on an object at `p_path` with member names `keys`: with
    /// a sub-field configuration `conf` (paths and optional flags), every
    /// required path directly below the object must be among its members.
    pub fn check_required_members(
        exact: bool,
        conf: Option<&[(String, bool)]>,
        p_path: &str,
        keys: &Vec<String>,
    ) -> (r: WResult<()>)
        ensures
            r is Err <==> exact && match conf {
                Some(c) => missing_report(p_path@, conf_paths(c@), texts(keys@)) is Some,
                None => false,
            },
            r matches Err(e) ==> e.context@ == "exact_json missing fields"@,
    {
        if !exact {
            return Ok(());
        }
        match conf {
            Some(c) => match Self::missing_fields(p_path, c, keys) {
                Some(_) => Err(ParseFail::expected("exact_json missing fields")),
                None => Ok(()),
            },
            None => Ok(()),
        }
    }
}

impl JsonProc {
    /// Which required members an object at `p_path` with member names `keys`
    /// lacks, given the configured sub-field paths `conf` (with their optional
    /// flags): `None` when none is missing, else the report text.
    pub fn missing_fields(p_path: &str, conf: &[(String, bool)], keys: &Vec<String>) -> (r: Option<
        String,
    >)
        ensures
            match r {
                Some(s) => missing_report(p_path@, conf_paths(conf@), texts(keys@)) == Some(s@),
                None => missing_report(p_path@, conf_paths(conf@), texts(keys@)) is None,
            },
    {
        let mut prefix: Vec<char> = chars_of(p_path);
        if prefix.len() > 0 {
            prefix.push('/');
        }
        let ghost pre = prefix@;
        assert(pre == (if p_path@.len() == 0 {
            Seq::<char>::empty()
        } else {
            p_path@ + seq!['/']
        }));
        let mut required: Vec<String> = Vec::new();
        let mut i: usize = 0;
        while i < conf.len()
            invariant
                i <= conf@.len(),
                prefix@ == pre,
                texts(required@) == required_children(pre, conf_paths(conf@).take(i as int)),
            decreases conf.len() - i,
        {
            let ghost before = required@;
            assert(conf_paths(conf@).take(i + 1).drop_last() =~= conf_paths(conf@).take(i as int));
            assert(conf_paths(conf@).take(i + 1).last() == (conf@[i as int].0@, conf@[i as int].1));
            if !conf[i].1 {
                match child_of(prefix.as_slice(), conf[i].0.as_str()) {
                    Some(child) => {
                        if !text_in(&required, &child) {
                            let ghost cv = child@;
                            required.push(child);
                            assert(texts(required@) =~= texts(before).push(cv));
                        }
                    },
                    None => {},
                }
            }
            i = i + 1;
        }
        assert(conf_paths(conf@).take(conf@.len() as int) =~= conf_paths(conf@));
        let ghost req = texts(required@);
        let mut missing: Vec<String> = Vec::new();
        let mut j: usize = 0;
        while j < required.len()
            invariant
                j <= required@.len(),
                req == texts(required@),
                texts(missing@) == missing_children(req.take(j as int), texts(keys@)),
            decreases required.len() - j,
        {
            let ghost before = missing@;
            assert(req.take(j + 1).drop_last() =~= req.take(j as int));
            assert(req.take(j + 1).last() == required@[j as int]@);
            if !text_in(keys, &required[j]) {
                let m = required[j].clone();
                let ghost mv = m@;
                missing.push(m);
                assert(texts(missing@) =~= texts(before).push(mv));
            }
            j = j + 1;
        }
        assert(req.take(required@.len() as int) =~= req);
        if missing.len() == 0 {
            return None;
        }
        let mut list = String::new();
        let mut k: usize = 0;
        let ghost ms = texts(missing@);
        while k < missing.len()
            invariant
                k <= missing@.len(),
                ms == texts(missing@),
                list@ == joined(ms.take(k as int), seq![',', ' ']),
            decreases missing.len() - k,
        {
            if k > 0 {
                list.append(", ");
                proof {
                    reveal_strlit(", ");
                }
            }
            list.append(missing[k].as_str());
            proof {
                let t = ms.take(k + 1);
                assert(t.drop_last() =~= ms.take(k as int));
                if k == 0 {
                    assert(list@ =~= t[0]);
                } else {
                    assert(list@ =~= joined(t.drop_last(), seq![',', ' ']) + seq![',', ' ']
                        + t.last());
                }
            }
            k = k + 1;
        }
        assert(ms.take(missing@.len() as int) =~= ms);
        if p_path.is_empty() {
            Some(list)
        } else {
            let mut report = p_path.to_owned();
            report.append("/{");
            report.append(list.as_str());
            report.append("}");
            proof {
                reveal_strlit("/{");
                reveal_strlit("}");
            }
            Some(report)
        }
    }
}

/// `s` without the `"` characters at either end.
pub open spec fn quotes_stripped(s: Seq<char>) -> Seq<char> {
    strip_trailing_quotes(strip_leading_quotes(s))
}

/// `s` without its leading `"` characters.
pub open spec fn strip_leading_quotes(s: Seq<char>) -> Seq<char>
    decreases s.len(),
{
    if s.len() > 0 && s[0] == '"' {
        strip_leading_quotes(s.skip(1))
    } else {
        s
    }
}

/// `s` without its trailing `"` characters.
pub open spec fn strip_trailing_quotes(s: Seq<char>) -> Seq<char>
    decreases s.len(),
{
    if s.len() > 0 && s.last() == '"' {
        strip_trailing_quotes(s.drop_last())
    } else {
        s
    }
}

fn strip_quotes(raw: &str) -> (r: String)
    ensures
        r@ == quotes_stripped(raw@),
{
    let cs = chars_of(raw);
    let n = cs.len();
    let mut b: usize = 0;
    assert(cs@.skip(0) =~= cs@);
    while b < n && cs[b] == '"'
        invariant
            n == cs@.len(),
            b <= n,
            strip_leading_quotes(cs@) == strip_leading_quotes(cs@.skip(b as int)),
        decreases n - b,
    {
        assert(cs@.skip(b as int).skip(1) =~= cs@.skip(b + 1));
        b = b + 1;
    }
    let ghost t = cs@.skip(b as int);
    assert(strip_leading_quotes(cs@) == t);
    let mut e: usize = n;
    assert(t.take((e - b) as int) =~= t);
    while e > b && cs[e - 1] == '"'
        invariant
            n == cs@.len(),
            b <= e <= n,
            t == cs@.skip(b as int),
            strip_trailing_quotes(t) == strip_trailing_quotes(t.take((e - b) as int)),
        decreases e,
    {
        assert(t.take((e - b) as int).drop_last() =~= t.take((e - 1 - b) as int));
        e = e - 1;
    }
    assert(cs@.subrange(b as int, e as int) =~= t.take((e - b) as int));
    string_of_chars(&cs.as_slice()[b..e])
}

/// `v` gives no field as an array item or member at nesting `depth`: it is
/// null, or nested deeper than `max`.
pub open spec fn is_absent(v: JsonValue, depth: nat, max: nat) -> bool {
    depth > max || v is Null
}

/// `d` is the field that JSON value `v`, named `name` under `parent`, becomes
/// inside an array field: scalars keep `name`, arrays hold the fields of their
/// present items (named with the empty name), objects are named `obj` and hold
/// their present members under the object's path.
pub open spec fn item_field(
    parent: Seq<char>,
    v: JsonValue,
    name: Seq<char>,
    depth: nat,
    max: nat,
    d: DataField,
) -> bool
    decreases v, 0int,
{
    if depth > max {
        false
    } else {
        match v {
            JsonValue::Null => false,
            JsonValue::Bool(b) => d.name@ == name && d.value@ == FieldValueView::Bool(b),
            JsonValue::Number(n) => d.name@ == name && d.value@ == number_field(n),
            JsonValue::Str(raw) => d.name@ == name && d.value@ == FieldValueView::Chars(
                trimmed(quotes_stripped(raw@)),
            ),
            JsonValue::Array(items) => d.name@ == name && match d.value {
                FieldValue::Array(ds) => items_fields(
                    parent,
                    items@,
                    items@.len() as int,
                    ds@,
                    depth + 1,
                    max,
                ),
                _ => false,
            },
            JsonValue::Object(members) => d.name@ == seq!['o', 'b', 'j'] && match d.value {
                FieldValue::Obj(ds) => members_fields(
                    json_path_of(parent, name),
                    members@,
                    members@.len() as int,
                    ds@,
                    depth + 1,
                    max,
                ),
                _ => false,
            },
        }
    }
}

/// `ds` are the fields of the present items among the first `n` of `items`.
pub open spec fn items_fields(
    parent: Seq<char>,
    items: Seq<JsonValue>,
    n: int,
    ds: Seq<DataField>,
    depth: nat,
    max: nat,
) -> bool
    decreases items, n,
{
    if n <= 0 {
        ds.len() == 0
    } else if n > items.len() {
        false
    } else if is_absent(items[n - 1], depth, max) {
        items_fields(parent, items, n - 1, ds, depth, max)
    } else {
        &&& ds.len() > 0
        &&& item_field(parent, items[n - 1], Seq::empty(), depth, max, ds.last())
        &&& items_fields(parent, items, n - 1, ds.drop_last(), depth, max)
    }
}

/// `ds` are the present members among the first `n` of `members`, each under
/// its key.
pub open spec fn members_fields(
    path: Seq<char>,
    members: Seq<(String, JsonValue)>,
    n: int,
    ds: Seq<(String, DataField)>,
    depth: nat,
    max: nat,
) -> bool
    decreases members, n,
{
    if n <= 0 {
        ds.len() == 0
    } else if n > members.len() {
        false
    } else if is_absent(members[n - 1].1, depth, max) {
        members_fields(path, members, n - 1, ds, depth, max)
    } else {
        &&& ds.len() > 0
        &&& ds.last().0@ == members[n - 1].0@
        &&& item_field(path, members[n - 1].1, members[n - 1].0@, depth, max, ds.last().1)
        &&& members_fields(path, members, n - 1, ds.drop_last(), depth, max)
    }
}

impl JsonProc {
    /// The field that JSON value `v`, named `name` under `parent`, becomes as
    /// an item of an array field; `None` for null and for values nested deeper
    /// than `max_depth`.
    pub fn proc_array_value(
        parent: &str,
        v: &JsonValue,
        name: &str,
        depth: usize,
        max_depth: usize,
    ) -> (r: Option<DataField>)
        requires
            max_depth < usize::MAX,
        ensures
            r is None <==> is_absent(*v, depth as nat, max_depth as nat),
            r matches Some(d) ==> item_field(parent@, *v, name@, depth as nat, max_depth as nat, d),
        decreases v,
    {
        if depth > max_depth {
            return None;
        }
        match v {
            JsonValue::Null => None,
            JsonValue::Bool(b) => Some(DataField { name: name.to_owned(), value: FieldValue::Bool(*b) }),
            JsonValue::Number(n) => Some(DataField { name: name.to_owned(), value: number_value(n) }),
            JsonValue::Str(raw) => {
                let stripped = strip_quotes(raw.as_str());
                let text = trim_str(stripped.as_str()).to_owned();
                Some(DataField { name: name.to_owned(), value: FieldValue::Chars(text) })
            },
            JsonValue::Array(items) => {
                let n = items.len();
                let mut dat: Vec<DataField> = Vec::new();
                let mut i: usize = 0;
                while i < n
                    invariant
                        n == items@.len(),
                        *v == JsonValue::Array(*items),
                        i <= n,
                        depth <= max_depth < usize::MAX,
                        items_fields(parent@, items@, i as int, dat@, (depth + 1) as nat, max_depth as nat),
                    decreases n - i,
                {
                    proof {
                        assert((*v)->Array_0 == *items);
                        assert(decreases_to!(*v => (*v)->Array_0));
                        assert(decreases_to!(*items => items@));
                        assert(decreases_to!(items@ => items@[i as int]));
                    }
                    let ghost before = dat@;
                    proof {
                        reveal_strlit("");
                        assert(""@ =~= Seq::<char>::empty());
                    }
                    match Self::proc_array_value(parent, &items[i], "", depth + 1, max_depth) {
                        Some(f) => {
                            dat.push(f);
                            proof {
                                assert(dat@.drop_last() =~= before);
                            }
                        },
                        None => {},
                    }
                    i = i + 1;
                }
                Some(DataField { name: name.to_owned(), value: FieldValue::Array(dat) })
            },
            JsonValue::Object(members) => {
                let j_path = Self::json_path(parent, name);
                let n = members.len();
                let mut dat: Vec<(String, DataField)> = Vec::new();
                let mut i: usize = 0;
                while i < n
                    invariant
                        n == members@.len(),
                        *v == JsonValue::Object(*members),
                        i <= n,
                        depth <= max_depth < usize::MAX,
                        j_path@ == json_path_of(parent@, name@),
                        members_fields(j_path@, members@, i as int, dat@, (depth + 1) as nat, max_depth as nat),
                    decreases n - i,
                {
                    proof {
                        assert((*v)->Object_0 == *members);
                        assert(decreases_to!(*v => (*v)->Object_0));
                        assert(decreases_to!(*members => members@));
                        assert(decreases_to!(members@ => members@[i as int]));
                        assert(decreases_to!(members@[i as int] => members@[i as int].1));
                    }
                    let ghost before = dat@;
                    let key = &members[i].0;
                    match Self::proc_array_value(j_path.as_str(), &members[i].1, key.as_str(), depth + 1, max_depth) {
                        Some(f) => {
                            dat.push((key.clone(), f));
                            proof {
                                assert(dat@.drop_last() =~= before);
                            }
                        },
                        None => {},
                    }
                    i = i + 1;
                }
                proof {
                    reveal_strlit("obj");
                    assert("obj"@ =~= seq!['o', 'b', 'j']);
                }
                Some(DataField { name: "obj".to_owned(), value: FieldValue::Obj(dat) })
            },
        }
    }
}

/// Flattening keeps scalar values: outside exact mode and within the depth
/// bound, a boolean, an integer that fits `i64` or a float at `name` under
/// `parent` becomes exactly one field, at the path `parent/name`, holding the
/// same value; a larger integer is kept as its decimal text.
pub proof fn law_flat_keeps_scalars(
    parent: Seq<char>,
    name: Seq<char>,
    depth: nat,
    max: nat,
    b: bool,
    u: u64,
    i: i64,
    bits: u64,
)
    requires
        depth <= max,
    ensures
        ({
            let p = json_path_of(parent, name);
            &&& flat_value(parent, JsonValue::Bool(b), name, false, depth, max) == (
                seq![(p, FieldValueView::Bool(b))],
                FlatEnd::Done,
            )
            &&& flat_value(parent, JsonValue::Number(JsonNumber::NegInt(i)), name, false, depth, max)
                == (seq![(p, FieldValueView::Digit(i))], FlatEnd::Done)
            &&& flat_value(parent, JsonValue::Number(JsonNumber::Float(bits)), name, false, depth, max)
                == (seq![(p, FieldValueView::Float(bits))], FlatEnd::Done)
            &&& u <= i64::MAX ==> flat_value(
                parent,
                JsonValue::Number(JsonNumber::PosInt(u)),
                name,
                false,
                depth,
                max,
            ) == (seq![(p, FieldValueView::Digit(u as i64))], FlatEnd::Done)
            &&& u > i64::MAX ==> flat_value(
                parent,
                JsonValue::Number(JsonNumber::PosInt(u)),
                name,
                false,
                depth,
                max,
            ) == (seq![(p, FieldValueView::Chars(decimal(u as nat)))], FlatEnd::Done)
        }),
{
}

/// A one-member object `{k: b}` at the top, flattened outside exact mode with
/// room for one level of nesting, gives exactly one field: named `k`, holding
/// the boolean `b`.
pub proof fn law_flat_object_bool_member(members: Vec<(String, JsonValue)>, b: bool, max: nat)
    requires
        members@.len() == 1,
        members@[0].1 == JsonValue::Bool(b),
        max >= 2,
    ensures
        flat_value(Seq::empty(), JsonValue::Object(members), Seq::empty(), false, 0, max) == (
            seq![(members@[0].0@, FieldValueView::Bool(b))],
            FlatEnd::Done,
        ),
{
    let k = members@[0].0@;
    assert(json_path_of(Seq::empty(), Seq::empty()) == Seq::<char>::empty());
    assert(json_path_of(Seq::empty(), k) == k);
    let a = flat_value(Seq::empty(), members@[0].1, k, false, 2, max);
    assert(a == (seq![(k, FieldValueView::Bool(b))], FlatEnd::Done));
    let rest = flat_members(Seq::empty(), members@, false, 1, 2, max);
    assert(rest == (Seq::<(Seq<char>, FieldValueView)>::empty(), FlatEnd::Done));
    assert(a.0 + rest.0 =~= seq![(k, FieldValueView::Bool(b))]);
}

/// A JSON string is kept as the text between its quotes: outside exact mode
/// and within the depth bound, the string whose serialised form is `"t"` (with
/// `t` the escaped text, as the reader writes it) becomes one field at
/// `parent/name` holding `t`, escapes left as written.
pub proof fn law_flat_keeps_string_text(
    parent: Seq<char>,
    name: Seq<char>,
    raw: String,
    t: Seq<char>,
    depth: nat,
    max: nat,
)
    requires
        depth <= max,
        raw@ == seq!['"'] + t + seq!['"'],
    ensures
        flat_value(parent, JsonValue::Str(raw), name, false, depth, max) == (
            seq![(json_path_of(parent, name), FieldValueView::Chars(t))],
            FlatEnd::Done,
        ),
{
    let r = raw@;
    assert(!unicode_white_space(r[0]));
    assert(trim_start_ws(r) == r);
    assert(r.last() == '"');
    assert(!unicode_white_space(r.last()));
    assert(trim_end_ws(r) == r);
    assert(r.skip(1) =~= t + seq!['"']);
    assert((t + seq!['"']).drop_last() =~= t);
}

/// Array items are named by their index: outside exact mode, with room for
/// the nesting, the array `[b]` named `name` under `parent` gives one field,
/// named `name[0]` under `parent`, holding the boolean `b`.
pub proof fn law_flat_array_item_named_by_index(
    parent: Seq<char>,
    name: Seq<char>,
    items: Vec<JsonValue>,
    b: bool,
    depth: nat,
    max: nat,
)
    requires
        items@.len() == 1,
        items@[0] == JsonValue::Bool(b),
        depth + 1 <= max,
    ensures
        flat_value(parent, JsonValue::Array(items), name, false, depth, max) == (
            seq![(json_path_of(parent, name + seq!['[', '0', ']']), FieldValueView::Bool(b))],
            FlatEnd::Done,
        ),
{
    let n0 = item_name_of(name, 0);
    assert(decimal(0) == seq![digit_char(0)]);
    assert(n0 =~= name + seq!['[', '0', ']']);
    let a = flat_value(parent, items@[0], n0, false, depth + 1, max);
    let rest = flat_items(parent, items@, name, 1, depth + 1, max);
    assert(rest == (Seq::<(Seq<char>, FieldValueView)>::empty(), FlatEnd::Done));
    assert(a.0 + rest.0 =~= a.0);
}

} // verus!


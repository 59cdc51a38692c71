//! Field pipes: checks and rewrites applied to the fields that a rule has
//! parsed, and the selectors that pick the field a pipe works on.
use vstd::prelude::*;
use crate::codec::{base64_standard_decode, base64_standard_decoded, json_string_from, json_string_value};
use crate::encoding::string_from_utf8;
use crate::string::no_backslash;
use crate::text::{ParseFail, WResult};
use vstd::utf8::{decode_utf8, encode_utf8, valid_utf8};
use vstd::string::StringSliceAdditionalSpecFns;

verus! {

/// An IP address as the pipes compare it: the 32 or 128 bits of the address.
#[derive(Clone, Copy, Debug, PartialEq, Eq, Structural)]
pub enum IpAddress {
    V4(u32),
    V6(u128),
}

/// The value of a parsed field, as far as the pipes read it.
#[derive(Debug)]
pub enum FieldValue {
    Chars(String),
    /// A symbol: text kept as one token.
    Symbol(String),
    Digit(i64),
    IpAddr(IpAddress),
    Bool(bool),
    /// A floating-point number, held as the bits of its IEEE 754 double.
    Float(u64),
    /// An array of fields.
    Array(Vec<DataField>),
    /// An object: its members, each a name and a field.
    Obj(Vec<(String, DataField)>),
    /// Any other kind of value (time, ...).
    Other,
}

/// A field value with its text as characters.
pub enum FieldValueView {
    Chars(Seq<char>),
    Symbol(Seq<char>),
    Digit(i64),
    IpAddr(IpAddress),
    Bool(bool),
    Float(u64),
    Array(Seq<DataField>),
    Obj(Seq<(String, DataField)>),
    Other,
}

impl View for FieldValue {
    type V = FieldValueView;

    open spec fn view(&self) -> FieldValueView {
        match self {
            FieldValue::Chars(s) => FieldValueView::Chars(s@),
            FieldValue::Symbol(s) => FieldValueView::Symbol(s@),
            FieldValue::Digit(d) => FieldValueView::Digit(*d),
            FieldValue::IpAddr(a) => FieldValueView::IpAddr(*a),
            FieldValue::Bool(b) => FieldValueView::Bool(*b),
            FieldValue::Float(f) => FieldValueView::Float(*f),
            FieldValue::Array(items) => FieldValueView::Array(items@),
            FieldValue::Obj(members) => FieldValueView::Obj(members@),
            FieldValue::Other => FieldValueView::Other,
        }
    }
}

/// A parsed field: its name and its value.
#[derive(Debug)]
pub struct DataField {
    pub name: String,
    pub value: FieldValue,
}

impl View for DataField {
    type V = (Seq<char>, FieldValueView);

    open spec fn view(&self) -> (Seq<char>, FieldValueView) {
        (self.name@, self.value@)
    }
}

impl DataField {
    pub fn from_chars(name: String, value: String) -> (r: DataField)
        ensures
            r.name == name,
            r.value == FieldValue::Chars(value),
    {
        DataField { name, value: FieldValue::Chars(value) }
    }

    pub fn from_digit(name: String, value: i64) -> (r: DataField)
        ensures
            r.name == name,
            r.value == FieldValue::Digit(value),
    {
        DataField { name, value: FieldValue::Digit(value) }
    }

    pub fn from_ip(name: String, value: IpAddress) -> (r: DataField)
        ensures
            r.name == name,
            r.value == FieldValue::IpAddr(value),
    {
        DataField { name, value: FieldValue::IpAddr(value) }
    }
}

/// The characters of a `Chars` value.
pub open spec fn chars_value(v: FieldValue) -> Option<Seq<char>> {
    match v {
        FieldValue::Chars(s) => Some(s@),
        _ => None,
    }
}

/// Which field a pipe asks to work on.
pub enum FieldSelectorSpec<'a> {
    /// The field with this name.
    Take(&'a str),
}

impl<'a> FieldSelectorSpec<'a> {
    /// Taking a field by name is faster with a name index.
    pub fn requires_index(&self) -> (r: bool)
        ensures
            r,
    {
        match self {
            FieldSelectorSpec::Take(_) => true,
        }
    }
}

/// The selector named by an optional target.
pub open spec fn target_selects<'a>(target: Option<String>, r: Option<FieldSelectorSpec<'a>>) -> bool {
    match target {
        Some(t) => r matches Some(FieldSelectorSpec::Take(n)) && n@ == t@,
        None => r is None,
    }
}

fn select_target<'a>(target: &'a Option<String>) -> (r: Option<FieldSelectorSpec<'a>>)
    ensures
        target_selects(*target, r),
{
    match target {
        Some(t) => Some(FieldSelectorSpec::Take(t.as_str())),
        None => None,
    }
}

/// A rule that a chars field exists under a name.
#[derive(Debug)]
pub struct ExistsChars(pub String);

/// Passes when the selected field exists.
#[derive(Debug)]
pub struct FdHas {
    pub found: Option<String>,
}

/// Passes when the selected field holds exactly these chars.
#[derive(Debug)]
pub struct FCharsHas {
    pub target: Option<String>,
    pub value: String,
}

/// Passes when the selected field is absent or holds chars other than these.
#[derive(Debug)]
pub struct FCharsNotHas {
    pub target: Option<String>,
    pub value: String,
}

/// Passes when the selected field holds exactly this number.
#[derive(Debug)]
pub struct FDigitHas {
    pub target: Option<String>,
    pub value: i64,
}

/// Passes when the selected field holds one of these numbers.
#[derive(Debug)]
pub struct FDigitIn {
    pub target: Option<String>,
    pub value: Vec<i64>,
}

/// Passes when the selected field holds one of these texts.
#[derive(Debug)]
pub struct FCharsIn {
    pub target: Option<String>,
    pub value: Vec<String>,
}

/// Passes when the selected field holds one of these addresses.
#[derive(Debug)]
pub struct FIpAddrIn {
    pub target: Option<String>,
    pub value: Vec<IpAddress>,
}

/// A function that does nothing.
#[derive(Default)]
pub struct StubFun {}

/// Resolves JSON escapes in the selected chars field.
#[derive(Debug)]
pub struct LastJsonUnescape {}

/// Decodes the selected chars field from Base64.
#[derive(Debug)]
pub struct Base64Decode {}

/// Selects the field with a given name.
#[derive(Debug)]
pub struct TakeField {
    pub target: String,
}

/// Selects the last field.
#[derive(Debug)]
pub struct SelectLast {}

impl FdHas {
    pub fn new(found: String) -> (r: Self)
        ensures
            r.found == Some(found),
    {
        FdHas { found: Some(found) }
    }

    /// Passes exactly when there is a field.
    pub fn process(&self, field: Option<&DataField>) -> (r: WResult<()>)
        ensures
            r is Ok <==> field is Some,
            r matches Err(e) ==> e.context@ == "json not exists sub item"@,
    {
        if field.is_some() {
            return Ok(());
        }
        Err(ParseFail::expected("json not exists sub item"))
    }

    pub fn auto_select(&self) -> (r: Option<FieldSelectorSpec<'_>>)
        ensures
            target_selects(self.found, r),
    {
        select_target(&self.found)
    }
}

impl FCharsHas {
    /// Passes exactly when the field holds chars equal to `value`.
    pub fn process(&self, field: Option<&DataField>) -> (r: WResult<()>)
        ensures
            r is Ok <==> (field matches Some(f) && chars_value(f.value) == Some(self.value@)),
            r matches Err(e) ==> e.context@ == "<pipe> | not exists"@,
    {
        if let Some(item) = field {
            if let FieldValue::Chars(value) = &item.value {
                if *value == self.value {
                    return Ok(());
                }
            }
        }
        Err(ParseFail::expected("<pipe> | not exists"))
    }

    pub fn auto_select(&self) -> (r: Option<FieldSelectorSpec<'_>>)
        ensures
            target_selects(self.target, r),
    {
        select_target(&self.target)
    }
}

impl FCharsNotHas {
    /// Passes exactly when there is no field, or it holds chars other than `value`.
    pub fn process(&self, field: Option<&DataField>) -> (r: WResult<()>)
        ensures
            r is Ok <==> match field {
                None => true,
                Some(f) => chars_value(f.value) matches Some(s) && s != self.value@,
            },
            r matches Err(e) ==> e.context@ == "<pipe> | not exists"@,
    {
        match field {
            None => Ok(()),
            Some(item) => {
                if let FieldValue::Chars(value) = &item.value {
                    if *value != self.value {
                        return Ok(());
                    }
                }
                Err(ParseFail::expected("<pipe> | not exists"))
            },
        }
    }

    pub fn auto_select(&self) -> (r: Option<FieldSelectorSpec<'_>>)
        ensures
            target_selects(self.target, r),
    {
        select_target(&self.target)
    }
}

impl FDigitHas {
    /// Passes exactly when the field holds the number `value`.
    pub fn process(&self, field: Option<&DataField>) -> (r: WResult<()>)
        ensures
            r is Ok <==> (field matches Some(f) && f.value == FieldValue::Digit(self.value)),
            r matches Err(e) ==> e.context@ == "<pipe> | not exists"@,
    {
        if let Some(item) = field {
            if let FieldValue::Digit(value) = &item.value {
                if *value == self.value {
                    return Ok(());
                }
            }
        }
        Err(ParseFail::expected("<pipe> | not exists"))
    }

    pub fn auto_select(&self) -> (r: Option<FieldSelectorSpec<'_>>)
        ensures
            target_selects(self.target, r),
    {
        select_target(&self.target)
    }
}

fn contains_digit(list: &Vec<i64>, x: &i64) -> (r: bool)
    ensures
        r == list@.contains(*x),
{
    let mut i: usize = 0;
    while i < list.len()
        invariant
            i <= list@.len(),
            forall|j: int| 0 <= j < i ==> list@[j] != *x,
        decreases list.len() - i,
    {
        if list[i] == *x {
            assert(list@[i as int] == *x);
            return true;
        }
        i = i + 1;
    }
    false
}

impl FDigitIn {
    /// Passes exactly when the field holds one of the numbers in `value`.
    pub fn process(&self, field: Option<&DataField>) -> (r: WResult<()>)
        ensures
            r is Ok <==> (field matches Some(f) && f.value matches FieldValue::Digit(d)
                && self.value@.contains(d)),
            r matches Err(e) ==> e.context@ == "<pipe> | not in"@,
    {
        if let Some(item) = field {
            if let FieldValue::Digit(value) = &item.value {
                if contains_digit(&self.value, value) {
                    return Ok(());
                }
            }
        }
        Err(ParseFail::expected("<pipe> | not in"))
    }

    pub fn auto_select(&self) -> (r: Option<FieldSelectorSpec<'_>>)
        ensures
            target_selects(self.target, r),
    {
        select_target(&self.target)
    }
}

/// Some text of `list` equals `s`.
pub open spec fn holds_text(list: Seq<String>, s: Seq<char>) -> bool {
    exists|i: int| 0 <= i < list.len() && (#[trigger] list[i])@ == s
}

fn contains_text(list: &Vec<String>, x: &String) -> (r: bool)
    ensures
        r == holds_text(list@, x@),
{
    let mut i: usize = 0;
    while i < list.len()
        invariant
            i <= list@.len(),
            forall|j: int| 0 <= j < i ==> (#[trigger] list@[j])@ != x@,
        decreases list.len() - i,
    {
        if list[i] == *x {
            assert(list@[i as int]@ == x@);
            return true;
        }
        i = i + 1;
    }
    false
}

impl FCharsIn {
    /// Passes exactly when the field holds chars equal to one of the texts in `value`.
    pub fn process(&self, field: Option<&DataField>) -> (r: WResult<()>)
        ensures
            r is Ok <==> (field matches Some(f) && chars_value(f.value) matches Some(s)
                && holds_text(self.value@, s)),
            r matches Err(e) ==> e.context@ == "<pipe> | not in"@,
    {
        if let Some(item) = field {
            if let FieldValue::Chars(value) = &item.value {
                if contains_text(&self.value, value) {
                    return Ok(());
                }
            }
        }
        Err(ParseFail::expected("<pipe> | not in"))
    }

    pub fn auto_select(&self) -> (r: Option<FieldSelectorSpec<'_>>)
        ensures
            target_selects(self.target, r),
    {
        select_target(&self.target)
    }
}

fn contains_ip(list: &Vec<IpAddress>, x: &IpAddress) -> (r: bool)
    ensures
        r == list@.contains(*x),
{
    let mut i: usize = 0;
    while i < list.len()
        invariant
            i <= list@.len(),
            forall|j: int| 0 <= j < i ==> list@[j] != *x,
        decreases list.len() - i,
    {
        if list[i] == *x {
            assert(list@[i as int] == *x);
            return true;
        }
        i = i + 1;
    }
    false
}

impl FIpAddrIn {
    /// Passes exactly when the field holds one of the addresses in `value`.
    pub fn process(&self, field: Option<&DataField>) -> (r: WResult<()>)
        ensures
            r is Ok <==> (field matches Some(f) && f.value matches FieldValue::IpAddr(a)
                && self.value@.contains(a)),
            r matches Err(e) ==> e.context@ == "<pipe> | not in"@,
    {
        if let Some(item) = field {
            if let FieldValue::IpAddr(value) = &item.value {
                if contains_ip(&self.value, value) {
                    return Ok(());
                }
            }
        }
        Err(ParseFail::expected("<pipe> | not in"))
    }

    pub fn auto_select(&self) -> (r: Option<FieldSelectorSpec<'_>>)
        ensures
            target_selects(self.target, r),
    {
        select_target(&self.target)
    }
}


/// The names of `fields`, in order.
pub open spec fn field_names(fields: Seq<DataField>) -> Seq<Seq<char>> {
    fields.map_values(|f: DataField| f.name@)
}

/// The last index of `names` holding `name`.
pub open spec fn last_position(names: Seq<Seq<char>>, name: Seq<char>) -> Option<int>
    decreases names.len(),
{
    if names.len() == 0 {
        None
    } else if names.last() == name {
        Some(names.len() - 1)
    } else {
        last_position(names.drop_last(), name)
    }
}

fn same_text(a: &str, b: &str) -> (r: bool)
    ensures
        r == (a@ == b@),
{
    let ac = crate::text::chars_of(a);
    let bc = crate::text::chars_of(b);
    crate::tag::compare_text(ac.as_slice(), bc.as_slice()) == 0
}

/// Positions of fields by name; where a name repeats, the last field wins.
pub struct FieldIndex {
    names: Vec<String>,
}

impl FieldIndex {
    /// The indexed names, in field order.
    pub closed spec fn names(&self) -> Seq<Seq<char>> {
        self.names@.map_values(|n: String| n@)
    }

    /// Where `name` is found: its last position.
    pub open spec fn lookup(&self, name: Seq<char>) -> Option<int> {
        last_position(self.names(), name)
    }

    pub fn build(fields: &[DataField]) -> (r: FieldIndex)
        ensures
            r.names() == field_names(fields@),
    {
        let mut names: Vec<String> = Vec::new();
        let mut i: usize = 0;
        while i < fields.len()
            invariant
                i <= fields@.len(),
                names@.len() == i,
                forall|j: int| 0 <= j < i ==> (#[trigger] names@[j])@ == fields@[j].name@,
            decreases fields.len() - i,
        {
            names.push(fields[i].name.clone());
            i = i + 1;
        }
        let r = FieldIndex { names };
        assert(r.names() =~= field_names(fields@));
        r
    }

    pub fn get(&self, name: &str) -> (r: Option<usize>)
        ensures
            match r {
                Some(i) => self.lookup(name@) == Some(i as int),
                None => self.lookup(name@) is None,
            },
    {
        let mut i: usize = self.names.len();
        assert(self.names().take(i as int) =~= self.names());
        while i > 0
            invariant
                i <= self.names@.len(),
                self.names().len() == self.names@.len(),
                self.lookup(name@) == last_position(self.names().take(i as int), name@),
            decreases i,
        {
            let ghost t = self.names().take(i as int);
            assert(t.last() == self.names@[i - 1]@);
            if same_text(self.names[i - 1].as_str(), name) {
                return Some(i - 1);
            }
            assert(t.drop_last() =~= self.names().take(i - 1));
            i = i - 1;
        }
        None
    }
}

/// The position that `index` gives for `target` among `len` fields, if it gives one in range.
pub open spec fn index_hint(index: Option<&FieldIndex>, target: Seq<char>, len: int) -> Option<int> {
    match index {
        Some(ix) => match ix.lookup(target) {
            Some(k) => if k < len {
                Some(k)
            } else {
                None
            },
            None => None,
        },
        None => None,
    }
}

impl TakeField {
    /// The field named `target`: where the index gives a position in range, that
    /// position; otherwise the first field with that name.
    pub fn select(&self, fields: &mut Vec<DataField>, index: Option<&FieldIndex>) -> (r: WResult<
        Option<usize>,
    >)
        ensures
            final(fields)@ == old(fields)@,
            match index_hint(index, self.target@, old(fields)@.len() as int) {
                Some(k) => r == Ok::<Option<usize>, ParseFail>(Some(k as usize)),
                None => match r {
                    Ok(Some(i)) => {
                        &&& i < old(fields)@.len()
                        &&& old(fields)@[i as int].name@ == self.target@
                        &&& forall|j: int| 0 <= j < i ==> (#[trigger] old(fields)@[j]).name@ != self.target@
                    },
                    Ok(None) => false,
                    Err(e) => {
                        &&& forall|j: int| 0 <= j < old(fields)@.len() ==> (#[trigger] old(fields)@[j]).name@ != self.target@
                        &&& e.context@ == "take | not exists"@
                    },
                },
            },
    {
        if let Some(map) = index {
            if let Some(idx) = map.get(self.target.as_str()) {
                if idx < fields.len() {
                    return Ok(Some(idx));
                }
            }
        }
        assert(index_hint(index, self.target@, fields@.len() as int) is None);
        let mut i: usize = 0;
        while i < fields.len()
            invariant
                i <= fields@.len(),
                fields@ == old(fields)@,
                index_hint(index, self.target@, fields@.len() as int) is None,
                forall|j: int| 0 <= j < i ==> (#[trigger] fields@[j]).name@ != self.target@,
            decreases fields.len() - i,
        {
            if fields[i].name == self.target {
                return Ok(Some(i));
            }
            i = i + 1;
        }
        Err(ParseFail::expected("take | not exists"))
    }

    /// Taking by name benefits from an index.
    pub fn requires_index(&self) -> (r: bool)
        ensures
            r,
    {
        true
    }
}

impl SelectLast {
    /// The last field, if there is one.
    pub fn select(&self, fields: &mut Vec<DataField>, index: Option<&FieldIndex>) -> (r: WResult<
        Option<usize>,
    >)
        ensures
            final(fields)@ == old(fields)@,
            old(fields)@.len() > 0 ==> r == Ok::<Option<usize>, ParseFail>(
                Some((old(fields)@.len() - 1) as usize),
            ),
            old(fields)@.len() == 0 ==> (r matches Err(e) && e.context@ == "last | not exists"@),
    {
        if fields.len() == 0 {
            Err(ParseFail::expected("last | not exists"))
        } else {
            Ok(Some(fields.len() - 1))
        }
    }

    pub fn requires_index(&self) -> (r: bool)
        ensures
            !r,
    {
        false
    }
}

/// `raw` between double quotes.
pub open spec fn quoted(raw: Seq<char>) -> Seq<char> {
    seq!['"'] + raw + seq!['"']
}

/// Reads `raw` as the inside of a JSON string literal.
pub fn decode_json_escapes(raw: &str) -> (r: Option<String>)
    ensures
        match r {
            Some(s) => json_string_value(quoted(raw@)) == Some(s@),
            None => json_string_value(quoted(raw@)) is None,
        },
{
    let mut quoted_text = String::new();
    quoted_text.append("\"");
    quoted_text.append(raw);
    quoted_text.append("\"");
    proof {
        reveal_strlit("\"");
        assert(quoted_text@ =~= quoted(raw@));
    }
    json_string_from(quoted_text.as_str())
}

/// What JSON unescaping makes of a value: text without `\\` stays as it is, other
/// text is replaced by its decoding; `None` where it fails or the value is not text.
pub open spec fn json_unescaped(v: FieldValue) -> Option<Seq<char>> {
    match v {
        FieldValue::Chars(s) => if no_backslash(s@) {
            Some(s@)
        } else {
            json_string_value(quoted(s@))
        },
        _ => None,
    }
}

/// Resolves JSON escapes in a chars value in place; false where it cannot.
pub fn value_json_unescape(v: &mut FieldValue) -> (r: bool)
    ensures
        r == (json_unescaped(*old(v)) is Some),
        match json_unescaped(*old(v)) {
            Some(t) => chars_value(*final(v)) == Some(t),
            None => *final(v) == *old(v),
        },
{
    let decoded = match &*v {
        FieldValue::Chars(s) => {
            if !has_backslash(s.as_str()) {
                return true;
            }
            decode_json_escapes(s.as_str())
        },
        _ => {
            return false;
        },
    };
    match decoded {
        Some(d) => {
            *v = FieldValue::Chars(d);
            true
        },
        None => false,
    }
}

fn has_backslash(s: &str) -> (r: bool)
    ensures
        r == !no_backslash(s@),
{
    let cs = crate::text::chars_of(s);
    let mut i: usize = 0;
    while i < cs.len()
        invariant
            i <= cs@.len(),
            cs@ == s@,
            forall|j: int| 0 <= j < i ==> cs@[j] != '\\',
        decreases cs.len() - i,
    {
        if cs[i] == '\\' {
            return true;
        }
        i = i + 1;
    }
    false
}

/// What Base64 decoding makes of a value: the decoded text where the chars are
/// valid standard Base64 of valid UTF-8, `None` otherwise.
pub open spec fn base64_decoded_text(v: FieldValue) -> Option<Seq<char>> {
    match v {
        FieldValue::Chars(s) => match base64_standard_decoded(encode_utf8(s@)) {
            Some(b) => if valid_utf8(b) {
                Some(decode_utf8(b))
            } else {
                None
            },
            None => None,
        },
        _ => None,
    }
}


/// Decodes a chars value from Base64 in place; false where it cannot.
pub fn value_base64_decode(v: &mut FieldValue) -> (r: bool)
    ensures
        r == (base64_decoded_text(*old(v)) is Some),
        match base64_decoded_text(*old(v)) {
            Some(t) => chars_value(*final(v)) == Some(t),
            None => *final(v) == *old(v),
        },
{
    let text = match &*v {
        FieldValue::Chars(s) => {
            let bytes = s.as_str().as_bytes();
            match base64_standard_decode(bytes) {
                Some(decoded) => string_from_utf8(decoded),
                None => None,
            }
        },
        _ => None,
    };
    match text {
        Some(t) => {
            *v = FieldValue::Chars(t);
            true
        },
        None => false,
    }
}

impl LastJsonUnescape {
    /// Resolves JSON escapes in the field's chars.
    pub fn process(&self, field: Option<&mut DataField>) -> (r: WResult<()>)
        ensures
            match field {
                None => r matches Err(e) && e.context@ == "json_unescape | no active field"@,
                Some(f) => {
                    &&& (r is Ok <==> json_unescaped(f.value) is Some)
                    &&& final(f).name == f.name
                    &&& match json_unescaped(f.value) {
                        Some(t) => chars_value(final(f).value) == Some(t),
                        None => final(f).value == f.value && (r matches Err(e)
                            && e.context@ == "json_unescape"@),
                    }
                },
            },
    {
        match field {
            None => Err(ParseFail::expected("json_unescape | no active field")),
            Some(f) => {
                if value_json_unescape(&mut f.value) {
                    Ok(())
                } else {
                    Err(ParseFail::expected("json_unescape"))
                }
            },
        }
    }
}

impl Base64Decode {
    /// Decodes the field's chars from Base64.
    pub fn process(&self, field: Option<&mut DataField>) -> (r: WResult<()>)
        ensures
            match field {
                None => r matches Err(e) && e.context@ == "base64_decode | no active field"@,
                Some(f) => {
                    &&& (r is Ok <==> base64_decoded_text(f.value) is Some)
                    &&& final(f).name == f.name
                    &&& match base64_decoded_text(f.value) {
                        Some(t) => chars_value(final(f).value) == Some(t),
                        None => final(f).value == f.value && (r matches Err(e)
                            && e.context@ == "base64_decode"@),
                    }
                },
            },
    {
        match field {
            None => Err(ParseFail::expected("base64_decode | no active field")),
            Some(f) => {
                if value_base64_decode(&mut f.value) {
                    Ok(())
                } else {
                    Err(ParseFail::expected("base64_decode"))
                }
            },
        }
    }
}

/// A function of a rule's pipe: a field selector, a check, or a rewrite.
#[derive(Debug)]
pub enum WplFun {
    SelectTake(TakeField),
    SelectLast(SelectLast),
    FCharsExists(FCharsHas),
    FCharsNotExists(FCharsNotHas),
    FCharsIn(FCharsIn),
    FDigitExists(FDigitHas),
    FDigitIn(FDigitIn),
    FIpAddrIn(FIpAddrIn),
    FExists(FdHas),
    TransJsonUnescape(LastJsonUnescape),
    TransBase64Decode(Base64Decode),
}

/// The target named by a check, if the function is one.
pub open spec fn check_target(f: WplFun) -> Option<Option<String>> {
    match f {
        WplFun::FCharsExists(x) => Some(x.target),
        WplFun::FCharsNotExists(x) => Some(x.target),
        WplFun::FCharsIn(x) => Some(x.target),
        WplFun::FDigitExists(x) => Some(x.target),
        WplFun::FDigitIn(x) => Some(x.target),
        WplFun::FIpAddrIn(x) => Some(x.target),
        WplFun::FExists(x) => Some(x.found),
        _ => None,
    }
}

impl WplFun {
    /// The field that a check selects by itself, by its target name.
    pub fn auto_selector_spec(&self) -> (r: Option<FieldSelectorSpec<'_>>)
        ensures
            match check_target(*self) {
                Some(t) => target_selects(t, r),
                None => r is None,
            },
    {
        match self {
            WplFun::FCharsExists(fun) => fun.auto_select(),
            WplFun::FCharsNotExists(fun) => fun.auto_select(),
            WplFun::FCharsIn(fun) => fun.auto_select(),
            WplFun::FDigitExists(fun) => fun.auto_select(),
            WplFun::FDigitIn(fun) => fun.auto_select(),
            WplFun::FIpAddrIn(fun) => fun.auto_select(),
            WplFun::FExists(fun) => fun.auto_select(),
            _ => None,
        }
    }

    /// Whether running the function is helped by a name index: taking a field by
    /// name, or a check that selects its field by name.
    pub fn requires_index(&self) -> (r: bool)
        ensures
            r == (self is SelectTake || check_target(*self) matches Some(Some(_))),
    {
        let selector_needs = match self {
            WplFun::SelectTake(selector) => selector.requires_index(),
            WplFun::SelectLast(selector) => selector.requires_index(),
            _ => false,
        };
        if selector_needs {
            return true;
        }
        if let Some(spec) = self.auto_selector_spec() {
            return spec.requires_index();
        }
        false
    }
}

} // verus!

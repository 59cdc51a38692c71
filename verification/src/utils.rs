//! Lexical helpers of the WPL grammar: names, quoted and raw strings,
//! parenthesised text, look-ahead.
use vstd::prelude::*;
use vstd::utf8::encode_utf8;
use crate::chars::{char_is_alphanumeric, is_multispace, is_multispace_char, unicode_alphanumeric};
use crate::encoding::{lemma_encode_utf8_concat, lemma_encode_utf8_single, utf8_lossy_chars, utf8_width};
use crate::string::{decode_escapes, unescaped_bytes};
use crate::text::{
    absent_from, advance, chars_of, find_from, first_occurrence_from, matches_at, occurs_at,
    split_chars, starts_with, took, ParseFail, WResult,
};

verus! {

/// The character sets of the name-like tokens.
#[derive(Clone, Copy, Debug, PartialEq, Eq)]
pub enum NameClass {
    /// `take_ref_path`: alphanumerics and `_ / - . [ ] *`.
    RefPath,
    /// `take_exact_path`: alphanumerics and `_ / - .`.
    ExactPath,
    /// `take_key`: alphanumerics and `_ / - .`.
    Key,
    /// `take_var_name`: alphanumerics and `_ . -`.
    VarName,
    /// `take_fun_name`: alphanumerics and `_ .`.
    FunName,
    /// `take_meta_name`: alphanumerics and `_ /`.
    MetaName,
}

pub open spec fn in_name_class(k: NameClass, c: char) -> bool {
    unicode_alphanumeric(c) || c == '_' || match k {
        NameClass::RefPath => c == '/' || c == '-' || c == '.' || c == '[' || c == ']' || c == '*',
        NameClass::ExactPath => c == '/' || c == '-' || c == '.',
        NameClass::Key => c == '/' || c == '-' || c == '.',
        NameClass::VarName => c == '.' || c == '-',
        NameClass::FunName => c == '.',
        NameClass::MetaName => c == '/',
    }
}

/// The first `n` characters of `s` are in class `k` and the next one (if any) is not.
pub open spec fn is_class_span(s: Seq<char>, k: NameClass, n: int) -> bool {
    &&& 0 <= n <= s.len()
    &&& forall|j: int| 0 <= j < n ==> in_name_class(k, #[trigger] s[j])
    &&& (n == s.len() || !in_name_class(k, s[n]))
}

/// Outcome of taking one or more characters of class `k`.
pub open spec fn name_taken(
    old: Seq<char>,
    new: Seq<char>,
    r: WResult<&str>,
    k: NameClass,
) -> bool {
    match r {
        Ok(v) => v@.len() > 0 && is_class_span(old, k, v@.len() as int) && took(
            old,
            new,
            v@,
            v@.len() as int,
        ),
        Err(_) => new == old && (old.len() == 0 || !in_name_class(k, old[0])),
    }
}

pub fn name_class_has(k: NameClass, c: char) -> (r: bool)
    ensures
        r == in_name_class(k, c),
{
    if char_is_alphanumeric(c) || c == '_' {
        return true;
    }
    match k {
        NameClass::RefPath => c == '/' || c == '-' || c == '.' || c == '[' || c == ']' || c == '*',
        NameClass::ExactPath => c == '/' || c == '-' || c == '.',
        NameClass::Key => c == '/' || c == '-' || c == '.',
        NameClass::VarName => c == '.' || c == '-',
        NameClass::FunName => c == '.',
        NameClass::MetaName => c == '/',
    }
}

/// Takes the longest non-empty run of characters of class `k`.
pub fn take_name<'a>(input: &mut &'a str, k: NameClass) -> (r: WResult<&'a str>)
    ensures
        name_taken(old(input)@, final(input)@, r, k),
{
    let cs = chars_of(*input);
    let mut n: usize = 0;
    while n < cs.len() && name_class_has(k, cs[n])
        invariant
            cs@ == input@,
            n <= cs@.len(),
            forall|j: int| 0 <= j < n ==> in_name_class(k, #[trigger] cs@[j]),
        decreases cs.len() - n,
    {
        n = n + 1;
    }
    if n == 0 {
        return Err(ParseFail::expected("name"));
    }
    let v = advance(input, n);
    Ok(v)
}

pub fn take_ref_path<'a>(input: &mut &'a str) -> (r: WResult<&'a str>)
    ensures
        name_taken(old(input)@, final(input)@, r, NameClass::RefPath),
{
    take_name(input, NameClass::RefPath)
}

pub fn take_exact_path<'a>(input: &mut &'a str) -> (r: WResult<&'a str>)
    ensures
        name_taken(old(input)@, final(input)@, r, NameClass::ExactPath),
{
    take_name(input, NameClass::ExactPath)
}

pub fn take_key<'a>(input: &mut &'a str) -> (r: WResult<&'a str>)
    ensures
        name_taken(old(input)@, final(input)@, r, NameClass::Key),
{
    take_name(input, NameClass::Key)
}

pub fn take_var_name<'a>(input: &mut &'a str) -> (r: WResult<&'a str>)
    ensures
        name_taken(old(input)@, final(input)@, r, NameClass::VarName),
{
    take_name(input, NameClass::VarName)
}

pub fn take_fun_name<'a>(input: &mut &'a str) -> (r: WResult<&'a str>)
    ensures
        name_taken(old(input)@, final(input)@, r, NameClass::FunName),
{
    take_name(input, NameClass::FunName)
}

pub fn take_meta_name<'a>(input: &mut &'a str) -> (r: WResult<&'a str>)
    ensures
        name_taken(old(input)@, final(input)@, r, NameClass::MetaName),
{
    take_name(input, NameClass::MetaName)
}

/// Consumes the whole remaining input.
pub fn take_to_end<'a>(input: &mut &'a str) -> (r: WResult<&'a str>)
    ensures
        r matches Ok(v) && took(old(input)@, final(input)@, v@, old(input)@.len() as int),
{
    let n = input.unicode_len();
    Ok(advance(input, n))
}

/// Which characters may follow the escape character `\`.
#[derive(Clone, Copy, Debug, PartialEq, Eq)]
pub enum EscapeSet {
    /// Quoted strings: a digit or one of `" n t r \ x`.
    Quoted,
    /// Raw quoted text: one of `" n \`.
    Restricted,
    /// Parenthesised text: `)`.
    Paren,
}

pub open spec fn escapable(set: EscapeSet, c: char) -> bool {
    match set {
        EscapeSet::Quoted => ('0' <= c && c <= '9') || c == '"' || c == 'n' || c == 't' || c
            == 'r' || c == '\\' || c == 'x',
        EscapeSet::Restricted => c == '"' || c == 'n' || c == '\\',
        EscapeSet::Paren => c == ')',
    }
}

/// Scanning escaped text from index `i`: plain characters other than `\` and
/// `stop` are skipped, `\` must be followed by an escapable character, and the
/// scan ends before `stop` or at the end of `s`. `None` when an escape is bad.
pub open spec fn escaped_end(s: Seq<char>, i: int, stop: char, set: EscapeSet) -> Option<int>
    decreases s.len() - i,
{
    if i >= s.len() {
        Some(s.len() as int)
    } else if i < 0 {
        None
    } else if s[i] == '\\' {
        if i + 1 < s.len() && escapable(set, s[i + 1]) {
            escaped_end(s, i + 2, stop, set)
        } else {
            None
        }
    } else if s[i] == stop {
        Some(i)
    } else {
        escaped_end(s, i + 1, stop, set)
    }
}

/// Index of the closing `close` of a text that opens with `open` at index 0
/// and holds escaped text in between.
pub open spec fn delimited_end(s: Seq<char>, open: char, close: char, set: EscapeSet) -> Option<
    int,
> {
    if s.len() > 0 && s[0] == open {
        match escaped_end(s, 1, close, set) {
            Some(e) => if e < s.len() {
                Some(e)
            } else {
                None
            },
            None => None,
        }
    } else {
        None
    }
}

pub proof fn lemma_escaped_end_bounds(s: Seq<char>, i: int, stop: char, set: EscapeSet)
    requires
        0 <= i <= s.len(),
    ensures
        escaped_end(s, i, stop, set) matches Some(e) ==> i <= e <= s.len() && (e < s.len()
            ==> s[e] == stop),
    decreases s.len() - i,
{
    if i < s.len() {
        if s[i] == '\\' {
            if i + 1 < s.len() && escapable(set, s[i + 1]) {
                lemma_escaped_end_bounds(s, i + 2, stop, set);
            }
        } else if s[i] != stop {
            lemma_escaped_end_bounds(s, i + 1, stop, set);
        }
    }
}

/// Exec form of `escaped_end`.
pub fn scan_escaped(s: &[char], start: usize, stop: char, set: EscapeSet) -> (r: Option<usize>)
    ensures
        match r {
            Some(e) => escaped_end(s@, start as int, stop, set) == Some(e as int),
            None => escaped_end(s@, start as int, stop, set) is None,
        },
{
    let mut i = start;
    if i >= s.len() {
        return Some(s.len());
    }
    while i < s.len()
        invariant
            start <= i,
            escaped_end(s@, start as int, stop, set) == escaped_end(s@, i as int, stop, set),
        decreases s.len() - i,
    {
        let c = s[i];
        if c == '\\' {
            if i + 1 < s.len() && esc_has(set, s[i + 1]) {
                i = i + 2;
            } else {
                return None;
            }
        } else if c == stop {
            return Some(i);
        } else {
            i = i + 1;
        }
    }
    Some(s.len())
}

fn esc_has(set: EscapeSet, c: char) -> (r: bool)
    ensures
        r == escapable(set, c),
{
    match set {
        EscapeSet::Quoted => ('0' <= c && c <= '9') || c == '"' || c == 'n' || c == 't' || c
            == 'r' || c == '\\' || c == 'x',
        EscapeSet::Restricted => c == '"' || c == 'n' || c == '\\',
        EscapeSet::Paren => c == ')',
    }
}

/// Exec form of `delimited_end`.
pub fn find_delimited(s: &[char], open: char, close: char, set: EscapeSet) -> (r: Option<usize>)
    ensures
        match r {
            Some(e) => delimited_end(s@, open, close, set) == Some(e as int),
            None => delimited_end(s@, open, close, set) is None,
        },
{
    if s.len() == 0 || s[0] != open {
        return None;
    }
    match scan_escaped(s, 1, close, set) {
        Some(e) => {
            if e < s.len() {
                Some(e)
            } else {
                None
            }
        },
        None => None,
    }
}

/// Outcome of a parser that takes the text between the delimiters at index 0
/// and `e` (both consumed) when `span` is `Some(e)`, and fails otherwise.
pub open spec fn inner_taken(
    old: Seq<char>,
    new: Seq<char>,
    r: WResult<&str>,
    span: Option<int>,
) -> bool {
    match span {
        Some(e) => r matches Ok(v) && v@ == old.subrange(1, e) && new == old.skip(e + 1),
        None => r is Err && new == old,
    }
}

fn take_delimited<'a>(input: &mut &'a str, open: char, close: char, set: EscapeSet) -> (r:
    WResult<&'a str>)
    ensures
        inner_taken(old(input)@, final(input)@, r, delimited_end(old(input)@, open, close, set)),
{
    let cs = chars_of(*input);
    match find_delimited(&cs, open, close, set) {
        Some(e) => {
            proof {
                lemma_escaped_end_bounds(cs@, 1, close, set);
            }
            assert(cs@.len() == cs.len());
            let (_, body) = split_chars(*input, 1);
            let (v, _) = split_chars(body, e - 1);
            let (_, rest) = split_chars(*input, e + 1);
            assert(v@ =~= cs@.subrange(1, e as int));
            *input = rest;
            Ok(v)
        },
        None => Err(ParseFail::expected("<quoted_string>::= '\"' , <character_sequence> , '\"' ")),
    }
}

/// A double-quoted string with the escapes `\" \\ \n \t \r \xHH` (and `\` before a
/// digit); returns the text between the quotes, escapes left as written.
pub fn quot_str<'a>(input: &mut &'a str) -> (r: WResult<&'a str>)
    ensures
        inner_taken(
            old(input)@,
            final(input)@,
            r,
            delimited_end(old(input)@, '"', '"', EscapeSet::Quoted),
        ),
{
    quot_str_impl(input)
}

/// Same as `quot_str`.
pub fn quot_str_impl<'a>(input: &mut &'a str) -> (r: WResult<&'a str>)
    ensures
        inner_taken(
            old(input)@,
            final(input)@,
            r,
            delimited_end(old(input)@, '"', '"', EscapeSet::Quoted),
        ),
{
    take_delimited(input, '"', '"', EscapeSet::Quoted)
}

/// Text between `(` and `)`, where `\)` stands for `)`; escapes left as written.
pub fn take_parentheses<'a>(input: &mut &'a str) -> (r: WResult<&'a str>)
    ensures
        inner_taken(
            old(input)@,
            final(input)@,
            r,
            delimited_end(old(input)@, '(', ')', EscapeSet::Paren),
        ),
{
    take_delimited(input, '(', ')', EscapeSet::Paren)
}

proof fn lemma_first_occurrence_unique(s: Seq<char>, pat: Seq<char>, from: int, i: int, j: int)
    requires
        first_occurrence_from(s, pat, from, i),
        first_occurrence_from(s, pat, from, j),
    ensures
        i == j,
{
    if i < j {
        assert(!occurs_at(s, pat, i));
    } else if j < i {
        assert(!occurs_at(s, pat, j));
    }
}

/// Exec form of a `choose`-defined first occurrence.
pub open spec fn find_spec(s: Seq<char>, pat: Seq<char>, from: int) -> Option<int> {
    if exists|i: int| first_occurrence_from(s, pat, from, i) {
        Some(choose|i: int| first_occurrence_from(s, pat, from, i))
    } else {
        None
    }
}

/// `find_from` computes `find_spec`.
pub fn find(s: &[char], pat: &[char], from: usize) -> (r: Option<usize>)
    ensures
        match r {
            Some(i) => find_spec(s@, pat@, from as int) == Some(i as int)
                && first_occurrence_from(s@, pat@, from as int, i as int),
            None => find_spec(s@, pat@, from as int) is None,
        },
{
    let r = find_from(s, pat, from);
    proof {
        match r {
            Some(i) => {
                let j = choose|j: int| first_occurrence_from(s@, pat@, from as int, j);
                lemma_first_occurrence_unique(s@, pat@, from as int, i as int, j);
            },
            None => {
                if exists|i: int| first_occurrence_from(s@, pat@, from as int, i) {
                    let i = choose|i: int| first_occurrence_from(s@, pat@, from as int, i);
                    assert(!occurs_at(s@, pat@, i));
                }
            },
        }
    }
    r
}

/// A double-quoted text without escapes: everything up to the next `"`.
pub fn window_path<'a>(input: &mut &'a str) -> (r: WResult<&'a str>)
    ensures
        inner_taken(old(input)@, final(input)@, r, find_quote_end(old(input)@)),
{
    let cs = chars_of(*input);
    if cs.len() == 0 || cs[0] != '"' {
        return Err(ParseFail::expected("\""));
    }
    let mut q: Vec<char> = Vec::new();
    q.push('"');
    assert(q@ =~= seq!['"']);
    match find(&cs, &q, 1) {
        Some(e) => {
            assert(cs@.len() == cs.len());
            let (_, body) = split_chars(*input, 1);
            let (v, _) = split_chars(body, e - 1);
            let (_, rest) = split_chars(*input, e + 1);
            assert(v@ =~= cs@.subrange(1, e as int));
            *input = rest;
            Ok(v)
        },
        None => {
            assert(q@ =~= seq!['"']);
            Err(ParseFail::expected("\""))
        },
    }
}

/// Index of the closing `"` of a quoted text without escapes.
pub open spec fn find_quote_end(s: Seq<char>) -> Option<int> {
    if s.len() > 0 && s[0] == '"' {
        find_spec(s, seq!['"'], 1)
    } else {
        None
    }
}


/// Where a raw string at index 0 puts its text and how much it consumes:
/// `r#"..."#` (first `"#` after the opening) or, for compatibility, `r"..."`
/// (first `"` after the opening); `(start, end, consumed)`.
pub open spec fn raw_string_span(s: Seq<char>) -> Option<(int, int, int)> {
    if starts_with(s, seq!['r', '#', '"']) {
        match find_spec(s, seq!['"', '#'], 3) {
            Some(p) => Some((3, p, p + 2)),
            None => None,
        }
    } else if starts_with(s, seq!['r', '"']) {
        match find_spec(s, seq!['"'], 2) {
            Some(p) => Some((2, p, p + 1)),
            None => None,
        }
    } else {
        None
    }
}

/// The positions of a raw string lie within the text.
pub proof fn lemma_raw_span_bounds(s: Seq<char>)
    ensures
        raw_string_span(s) matches Some((b, e, n)) ==> 0 <= b <= e <= n <= s.len(),
{
    if starts_with(s, seq!['r', '#', '"']) {
        if let Some(p) = find_spec(s, seq!['"', '#'], 3) {
            assert(first_occurrence_from(s, seq!['"', '#'], 3, p));
        }
    } else if starts_with(s, seq!['r', '"']) {
        if let Some(p) = find_spec(s, seq!['"'], 2) {
            assert(first_occurrence_from(s, seq!['"'], 2, p));
        }
    }
}

/// Outcome of a parser that takes `s[start..end]` and consumes `consumed`
/// characters when `span` is `Some((start, end, consumed))`, and fails otherwise.
pub open spec fn span_taken(
    old: Seq<char>,
    new: Seq<char>,
    r: WResult<&str>,
    span: Option<(int, int, int)>,
) -> bool {
    match span {
        Some((b, e, n)) => r matches Ok(v) && v@ == old.subrange(b, e) && new == old.skip(n),
        None => r is Err && new == old,
    }
}

fn char_vec(cs: &[char]) -> (v: Vec<char>)
    ensures
        v@ == cs@,
{
    let mut v: Vec<char> = Vec::new();
    let mut i: usize = 0;
    while i < cs.len()
        invariant
            i <= cs@.len(),
            v@ == cs@.take(i as int),
        decreases cs.len() - i,
    {
        v.push(cs[i]);
        i = i + 1;
        assert(v@ =~= cs@.take(i as int));
    }
    assert(cs@.take(cs@.len() as int) =~= cs@);
    v
}

/// Exec form of `raw_string_span`.
pub fn find_raw_string(cs: &[char]) -> (r: Option<(usize, usize, usize)>)
    ensures
        match r {
            Some((b, e, n)) => raw_string_span(cs@) == Some((b as int, e as int, n as int)) && b
                <= e <= n <= cs@.len(),
            None => raw_string_span(cs@) is None,
        },
{
    let open3 = char_vec(&['r', '#', '"']);
    let close2 = char_vec(&['"', '#']);
    let open2 = char_vec(&['r', '"']);
    let close1 = char_vec(&['"']);
    assert(open3@ =~= seq!['r', '#', '"']);
    assert(close2@ =~= seq!['"', '#']);
    assert(open2@ =~= seq!['r', '"']);
    assert(close1@ =~= seq!['"']);
    assert(cs@.len() == cs.len());
    if matches_at(cs, 0, &open3) {
        match find(cs, &close2, 3) {
            Some(p) => Some((3, p, p + 2)),
            None => None,
        }
    } else if matches_at(cs, 0, &open2) {
        match find(cs, &close1, 2) {
            Some(p) => Some((2, p, p + 1)),
            None => None,
        }
    } else {
        None
    }
}

fn take_span<'a>(input: &mut &'a str, b: usize, e: usize, n: usize) -> (r: &'a str)
    requires
        b <= e <= n <= old(input)@.len(),
    ensures
        r@ == old(input)@.subrange(b as int, e as int),
        final(input)@ == old(input)@.skip(n as int),
{
    let (_, tail) = split_chars(*input, b);
    let (v, _) = split_chars(tail, e - b);
    let (_, rest) = split_chars(*input, n);
    assert(v@ =~= old(input)@.subrange(b as int, e as int));
    *input = rest;
    v
}

/// A raw string `r#"..."#` (preferred) or `r"..."` (kept for compatibility);
/// the text is returned as written.
pub fn quot_r_str<'a>(input: &mut &'a str) -> (r: WResult<&'a str>)
    ensures
        span_taken(old(input)@, final(input)@, r, raw_string_span(old(input)@)),
{
    let cs = chars_of(*input);
    match find_raw_string(&cs) {
        Some((b, e, n)) => Ok(take_span(input, b, e, n)),
        None => Err(ParseFail::expected("raw string: r#\"...\"#")),
    }
}

/// How many characters `quot_raw` consumes: the quoted text with the escapes
/// `\" \n \\`, counted as the byte length of its content plus two.
pub open spec fn raw_quoted_len(s: Seq<char>) -> Option<int> {
    match delimited_end(s, '"', '"', EscapeSet::Restricted) {
        Some(e) => {
            let n = encode_utf8(s.subrange(1, e)).len() + 2;
            if n <= s.len() {
                Some(n as int)
            } else {
                None
            }
        },
        None => None,
    }
}

/// Byte length of the UTF-8 encoding of `cs[from..to]`.
fn utf8_len_range(cs: &[char], from: usize, to: usize) -> (r: u128)
    requires
        from <= to <= cs@.len(),
    ensures
        r == encode_utf8(cs@.subrange(from as int, to as int)).len(),
        r <= 4 * (to - from),
{
    let mut total: u128 = 0;
    let mut k = from;
    assert(cs@.subrange(from as int, from as int) =~= Seq::<char>::empty());
    while k < to
        invariant
            from <= k <= to <= cs@.len(),
            total == encode_utf8(cs@.subrange(from as int, k as int)).len(),
            total <= 4 * (k - from),
        decreases to - k,
    {
        let w = utf8_width(cs[k]);
        proof {
            lemma_encode_utf8_concat(cs@.subrange(from as int, k as int), seq![cs@[k as int]]);
            lemma_encode_utf8_single(cs@[k as int]);
            assert(cs@.subrange(from as int, k as int) + seq![cs@[k as int]] =~= cs@.subrange(
                from as int,
                k + 1,
            ));
        }
        total = total + w as u128;
        k = k + 1;
    }
    total
}

/// A double-quoted string with the escapes `\" \n \\`, returned with its
/// quotes. The slice returned holds as many characters as the content has UTF-8
/// bytes, plus two; for ASCII content that is exactly the quoted string.
pub fn quot_raw<'a>(input: &mut &'a str) -> (r: WResult<&'a str>)
    ensures
        match raw_quoted_len(old(input)@) {
            Some(n) => r matches Ok(v) && took(old(input)@, final(input)@, v@, n),
            None => r is Err && final(input)@ == old(input)@,
        },
{
    let cs = chars_of(*input);
    match find_delimited(&cs, '"', '"', EscapeSet::Restricted) {
        Some(e) => {
            proof {
                lemma_escaped_end_bounds(cs@, 1, '"', EscapeSet::Restricted);
            }
            let content = utf8_len_range(&cs, 1, e);
            let n = content + 2;
            if n <= cs.len() as u128 {
                let v = advance(input, n as usize);
                Ok(v)
            } else {
                Err(ParseFail::expected("quoted text"))
            }
        },
        None => Err(ParseFail::expected("quoted text")),
    }
}

/// Succeeds, consuming nothing, when the input begins with `what`.
pub fn peek_str(what: &str, input: &mut &str) -> (r: WResult<()>)
    ensures
        final(input)@ == old(input)@,
        r is Ok <==> starts_with(old(input)@, what@),
{
    let cs = chars_of(*input);
    let w = chars_of(what);
    if matches_at(&cs, 0, &w) {
        Ok(())
    } else {
        Err(ParseFail::expected("peek"))
    }
}

/// Number of leading spaces, tabs, carriage returns and line feeds.
pub open spec fn is_space_span(s: Seq<char>, n: int) -> bool {
    &&& 0 <= n <= s.len()
    &&& forall|j: int| 0 <= j < n ==> is_multispace(#[trigger] s[j])
    &&& (n == s.len() || !is_multispace(s[n]))
}

/// Skips spaces, tabs, carriage returns and line feeds (`multispace0`).
pub fn skip_multispace<'a>(input: &mut &'a str) -> (r: &'a str)
    ensures
        is_space_span(old(input)@, r@.len() as int),
        took(old(input)@, final(input)@, r@, r@.len() as int),
{
    let cs = chars_of(*input);
    let mut n: usize = 0;
    while n < cs.len() && is_multispace_char(cs[n])
        invariant
            cs@ == input@,
            n <= cs@.len(),
            forall|j: int| 0 <= j < n ==> is_multispace(#[trigger] cs@[j]),
        decreases cs.len() - n,
    {
        n = n + 1;
    }
    advance(input, n)
}

/// After leading whitespace, is the next character a `,`? If so it is consumed.
/// The whitespace is consumed either way.
pub fn is_sep_next(input: &mut &str) -> (r: bool)
    ensures
        exists|n: int|
            is_space_span(old(input)@, n) && {
                let rest = old(input)@.skip(n);
                &&& r == (rest.len() > 0 && rest[0] == ',')
                &&& final(input)@ == if r {
                    rest.skip(1)
                } else {
                    rest
                }
            },
{
    let ws = skip_multispace(input);
    let ghost n = ws@.len() as int;
    let cs = chars_of(*input);
    if cs.len() > 0 && cs[0] == ',' {
        advance(input, 1);
        true
    } else {
        false
    }
}

/// After leading whitespace (which is consumed), does the input begin with `prefix`?
pub fn is_next_unit(prefix: &str, input: &mut &str) -> (r: bool)
    ensures
        exists|n: int|
            is_space_span(old(input)@, n) && final(input)@ == old(input)@.skip(n) && r
                == starts_with(old(input)@.skip(n), prefix@),
{
    let ws = skip_multispace(input);
    let ghost n = ws@.len() as int;
    peek_str(prefix, input).is_ok()
}

/// Number of leading whitespace characters of `s`.
pub open spec fn space_len(s: Seq<char>) -> int {
    choose|n: int| is_space_span(s, n)
}

/// Length of the leading run of class `k` in `s`.
pub open spec fn name_len(s: Seq<char>, k: NameClass) -> int {
    choose|n: int| is_class_span(s, k, n)
}

pub proof fn lemma_space_len(s: Seq<char>, n: int)
    requires
        is_space_span(s, n),
    ensures
        space_len(s) == n,
{
    let m = space_len(s);
    assert(is_space_span(s, m));
    if m < n {
        assert(is_multispace(s[m]));
    } else if n < m {
        assert(is_multispace(s[n]));
    }
}

pub proof fn lemma_name_len(s: Seq<char>, k: NameClass, n: int)
    requires
        is_class_span(s, k, n),
    ensures
        name_len(s, k) == n,
{
    let m = name_len(s, k);
    assert(is_class_span(s, k, m));
    if m < n {
        assert(in_name_class(k, s[m]));
    } else if n < m {
        assert(in_name_class(k, s[n]));
    }
}

/// The value part of a tag: a raw string kept as written, or a quoted string
/// with its escapes decoded; with the number of characters it consumes.
pub open spec fn tag_value(t: Seq<char>) -> Option<(Seq<char>, int)> {
    match raw_string_span(t) {
        Some((x, y, m)) => Some((t.subrange(x, y), m)),
        None => match delimited_end(t, '"', '"', EscapeSet::Quoted) {
            Some(e) => Some((utf8_lossy_chars(unescaped_bytes(t.subrange(1, e))), e + 1)),
            None => None,
        },
    }
}

/// `key : value` with optional whitespace around the key and the colon:
/// the key, the value and the number of characters consumed.
pub open spec fn tag_kv_spec(s: Seq<char>) -> Option<(Seq<char>, Seq<char>, int)> {
    let a = space_len(s);
    let s1 = s.skip(a);
    let b = name_len(s1, NameClass::Key);
    let s2 = s1.skip(b);
    let c = space_len(s2);
    let s3 = s2.skip(c);
    if b == 0 || !(s3.len() > 0 && s3[0] == ':') {
        None
    } else {
        let s4 = s3.skip(1);
        let d = space_len(s4);
        match tag_value(s4.skip(d)) {
            Some((v, m)) => Some((s1.take(b), v, a + b + c + 1 + d + m)),
            None => None,
        }
    }
}

/// A tag pair `key : "value"` (or `key : r#"value"#`); quoted values have
/// their escapes decoded, raw values are kept as written.
pub fn take_tag_kv(input: &mut &str) -> (r: WResult<(String, String)>)
    ensures
        match tag_kv_spec(old(input)@) {
            Some((k, v, n)) => r matches Ok((rk, rv)) && rk@ == k && rv@ == v && final(input)@
                == old(input)@.skip(n),
            None => r is Err && final(input)@ == old(input)@,
        },
{
    let ghost s = input@;
    let mut cur: &str = *input;
    let ws1 = skip_multispace(&mut cur);
    let ghost a = ws1@.len() as int;
    proof {
        lemma_space_len(s, a);
    }
    let ghost s1 = cur@;
    let key = match take_key(&mut cur) {
        Ok(k) => k,
        Err(e) => {
            proof {
                lemma_name_len(s1, NameClass::Key, 0);
            }
            return Err(e);
        },
    };
    let ghost b = key@.len() as int;
    proof {
        lemma_name_len(s1, NameClass::Key, b);
    }
    let ghost s2 = cur@;
    let ws2 = skip_multispace(&mut cur);
    let ghost c = ws2@.len() as int;
    proof {
        lemma_space_len(s2, c);
    }
    let ghost s3 = cur@;
    let cs3 = chars_of(cur);
    if !(cs3.len() > 0 && cs3[0] == ':') {
        return Err(ParseFail::expected(":"));
    }
    advance(&mut cur, 1);
    let ghost s4 = cur@;
    let ws3 = skip_multispace(&mut cur);
    let ghost d = ws3@.len() as int;
    proof {
        lemma_space_len(s4, d);
    }
    let ghost t = cur@;
    let ghost mut m: int = 0;
    let value: String;
    match quot_r_str(&mut cur) {
        Ok(v) => {
            proof {
                lemma_raw_span_bounds(t);
                m = raw_string_span(t).unwrap().2;
            }
            value = v.to_owned();
            assert(tag_value(t) == Some((value@, m)));
            assert(m <= t.len() && cur@ =~= t.skip(m));
        },
        Err(_) => {
            match quot_str(&mut cur) {
                Ok(v) => {
                    proof {
                        lemma_escaped_end_bounds(t, 1, '"', EscapeSet::Quoted);
                        m = delimited_end(t, '"', '"', EscapeSet::Quoted).unwrap() + 1;
                    }
                    value = decode_escapes(v);
                    assert(tag_value(t) == Some((value@, m)));
                    assert(m <= t.len() && cur@ =~= t.skip(m));
                },
                Err(e) => {
                    assert(tag_value(t) is None);
                    return Err(e);
                },
            }
        },
    }
    proof {
        assert(s1 =~= s.skip(a));
        assert(s2 =~= s1.skip(b));
        assert(s3 =~= s2.skip(c));
        assert(s4 =~= s3.skip(1));
        assert(t =~= s4.skip(d));
        assert(t =~= s.skip(a + b + c + 1 + d));
        assert(a + b + c + 1 + d <= s.len());
        assert(cur@ =~= s.skip(a + b + c + 1 + d + m));
    }
    *input = cur;
    Ok((key.to_owned(), value))
}

/// A raw string is read whole: `r#"t"#`, with `t` holding no `"#`, spans the
/// text `t` (from index 3) and consumes its closing `"#`, whatever follows.
pub proof fn law_raw_string_read_whole(t: Seq<char>, rest: Seq<char>)
    requires
        forall|j: int| 0 <= j ==> !occurs_at(t, seq!['"', '#'], j),
    ensures
        raw_string_span(seq!['r', '#', '"'] + t + seq!['"', '#'] + rest) == Some(
            (3int, 3 + t.len() as int, 5 + t.len() as int),
        ),
        (seq!['r', '#', '"'] + t + seq!['"', '#'] + rest).subrange(3, 3 + t.len() as int) == t,
{
    let s4 = seq!['r', '#', '"'] + t + seq!['"', '#'] + rest;
    let tl = t.len() as int;
    assert(s4.subrange(0, 3) =~= seq!['r', '#', '"']);
    assert(starts_with(s4, seq!['r', '#', '"']));
    let p = 3 + tl;
    assert(s4.subrange(p, p + 2) =~= seq!['"', '#']);
    assert forall|j: int| 3 <= j < p implies !occurs_at(s4, seq!['"', '#'], j) by {
        if occurs_at(s4, seq!['"', '#'], j) {
            assert(s4.subrange(j, j + 2)[0] == '"');
            assert(s4.subrange(j, j + 2)[1] == '#');
            assert(s4[j] == t[j - 3]);
            if j + 1 < p {
                assert(s4[j + 1] == t[j - 2]);
                assert(t.subrange(j - 3, j - 1) =~= seq!['"', '#']);
                assert(occurs_at(t, seq!['"', '#'], j - 3));
            } else {
                assert(s4[j + 1] == '"');
            }
        }
    }
    assert(first_occurrence_from(s4, seq!['"', '#'], 3, p));
    let q = choose|i: int| first_occurrence_from(s4, seq!['"', '#'], 3, i);
    lemma_first_occurrence_unique(s4, seq!['"', '#'], 3, p, q);
    assert(s4.subrange(3, p) =~= t);
}

/// The raw string `r#"t"#`, with `t` holding no `"#`, reads as `t`.
proof fn lemma_raw_tag_value(t: Seq<char>, rest: Seq<char>)
    requires
        forall|j: int| 0 <= j ==> !occurs_at(t, seq!['"', '#'], j),
    ensures
        tag_value(seq!['r', '#', '"'] + t + seq!['"', '#'] + rest) == Some(
            (t, (t.len() + 5) as int),
        ),
{
    law_raw_string_read_whole(t, rest);
}

/// A raw tag value is returned as written: for a key `k`, a text `t` holding no
/// `"#` and anything after, `k:r#"t"#` reads as the pair `(k, t)` and consumes
/// exactly that much. (`:` is not alphanumeric, as `char_is_alphanumeric`
/// states, so the key ends at the colon.)
pub proof fn law_raw_tag_value_verbatim(k: Seq<char>, t: Seq<char>, rest: Seq<char>)
    requires
        k.len() > 0,
        forall|i: int|
            0 <= i < k.len() ==> in_name_class(NameClass::Key, #[trigger] k[i]) && !is_multispace(
                k[i],
            ),
        !unicode_alphanumeric(':'),
        forall|j: int| 0 <= j ==> !occurs_at(t, seq!['"', '#'], j),
    ensures
        tag_kv_spec(k + seq![':', 'r', '#', '"'] + t + seq!['"', '#'] + rest) == Some(
            (k, t, (k.len() + t.len() + 6) as int),
        ),
{
    let v = seq!['r', '#', '"'] + t + seq!['"', '#'] + rest;
    let s = k + seq![':'] + v;
    assert(s =~= k + seq![':', 'r', '#', '"'] + t + seq!['"', '#'] + rest);
    let kl = k.len() as int;
    assert(s[0] == k[0]);
    lemma_space_len(s, 0);
    assert(s.skip(0) =~= s);
    assert forall|j: int| 0 <= j < kl implies in_name_class(NameClass::Key, #[trigger] s[j]) by {
        assert(s[j] == k[j]);
    }
    assert(s[kl] == ':');
    lemma_name_len(s, NameClass::Key, kl);
    let s2 = s.skip(kl);
    assert(s2 =~= seq![':'] + v);
    lemma_space_len(s2, 0);
    assert(s2.skip(0) =~= s2);
    assert(s.take(kl) =~= k);
    assert(s2.skip(1) =~= v);
    assert(v[0] == 'r');
    lemma_space_len(v, 0);
    assert(v.skip(0) =~= v);
    lemma_raw_tag_value(t, rest);
}

} // verus!

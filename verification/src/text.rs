//! Character-level building blocks shared by the parsers: the model of a
//! parse step over a `&str` cursor, and small searches over characters.
use vstd::prelude::*;

verus! {

/// Why a parser refused its input: a short description of what it expected.
#[derive(Debug, PartialEq)]
pub struct ParseFail {
    pub context: String,
}

/// Result of one parsing step.
pub type WResult<T> = Result<T, ParseFail>;

impl ParseFail {
    pub fn expected(what: &str) -> (r: ParseFail)
        ensures
            r.context@ == what@,
    {
        ParseFail { context: what.to_owned() }
    }
}

/// `out` is the first `n` characters of `old`, and `new` is what follows them.
pub open spec fn took(old: Seq<char>, new: Seq<char>, out: Seq<char>, n: int) -> bool {
    &&& 0 <= n <= old.len()
    &&& out == old.take(n)
    &&& new == old.skip(n)
}

/// `pat` occurs in `s` starting at index `i`.
pub open spec fn occurs_at(s: Seq<char>, pat: Seq<char>, i: int) -> bool {
    &&& 0 <= i
    &&& i + pat.len() <= s.len()
    &&& s.subrange(i, i + pat.len()) == pat
}

/// `s` begins with `pat`.
pub open spec fn starts_with(s: Seq<char>, pat: Seq<char>) -> bool {
    occurs_at(s, pat, 0)
}

/// `i` is the first index at or after `from` where `pat` occurs in `s`.
pub open spec fn first_occurrence_from(s: Seq<char>, pat: Seq<char>, from: int, i: int) -> bool {
    &&& from <= i
    &&& occurs_at(s, pat, i)
    &&& forall|j: int| from <= j < i ==> !occurs_at(s, pat, j)
}

/// `pat` occurs nowhere in `s` at or after `from`.
pub open spec fn absent_from(s: Seq<char>, pat: Seq<char>, from: int) -> bool {
    forall|j: int| from <= j ==> !occurs_at(s, pat, j)
}

/// The characters of `s`, in order.
pub fn chars_of(s: &str) -> (v: Vec<char>)
    ensures
        v@ == s@,
{
    let n = s.unicode_len();
    let mut v: Vec<char> = Vec::new();
    let mut i: usize = 0;
    while i < n
        invariant
            i <= n,
            n == s@.len(),
            v@ == s@.take(i as int),
        decreases n - i,
    {
        v.push(s.get_char(i));
        i = i + 1;
        assert(v@ =~= s@.take(i as int));
    }
    assert(v@ =~= s@);
    v
}

/// Splits `s` after its first `k` characters.
pub fn split_chars<'a>(s: &'a str, k: usize) -> (r: (&'a str, &'a str))
    requires
        k <= s@.len(),
    ensures
        r.0@ == s@.take(k as int),
        r.1@ == s@.skip(k as int),
{
    let n = s.unicode_len();
    let a = s.substring_char(0, k);
    let b = s.substring_char(k, n);
    (a, b)
}

/// Moves the cursor past its first `k` characters and returns them.
pub fn advance<'a>(input: &mut &'a str, k: usize) -> (r: &'a str)
    requires
        k <= old(input)@.len(),
    ensures
        took(old(input)@, final(input)@, r@, k as int),
{
    let (a, b) = split_chars(*input, k);
    *input = b;
    a
}

/// Whether `pat` occurs in `s` at index `i`.
pub fn matches_at(s: &[char], i: usize, pat: &[char]) -> (r: bool)
    ensures
        r == occurs_at(s@, pat@, i as int),
{
    if i > s.len() || pat.len() > s.len() - i {
        return false;
    }
    let mut k: usize = 0;
    while k < pat.len()
        invariant
            i + pat@.len() <= s@.len(),
            pat@.len() == pat.len(),
            s@.len() == s.len(),
            k <= pat@.len(),
            forall|j: int| 0 <= j < k ==> s@[i + j] == pat@[j],
        decreases pat.len() - k,
    {
        if s[i + k] != pat[k] {
            assert(s@.subrange(i as int, i + pat@.len())[k as int] != pat@[k as int]);
            return false;
        }
        k = k + 1;
    }
    assert(s@.subrange(i as int, i + pat@.len()) =~= pat@);
    true
}

/// The first index at or after `from` where `pat` occurs in `s`, if any.
pub fn find_from(s: &[char], pat: &[char], from: usize) -> (r: Option<usize>)
    ensures
        match r {
            Some(i) => first_occurrence_from(s@, pat@, from as int, i as int),
            None => absent_from(s@, pat@, from as int),
        },
{
    if from > s.len() {
        return None;
    }
    let mut i = from;
    while i < s.len()
        invariant
            from <= i <= s@.len(),
            forall|j: int| from <= j < i ==> !occurs_at(s@, pat@, j),
        decreases s.len() - i,
    {
        if matches_at(s, i, pat) {
            return Some(i);
        }
        i = i + 1;
    }
    if matches_at(s, i, pat) {
        return Some(i);
    }
    None
}

/// Appends one character to a `String`.
#[verifier::external_body]
pub(crate) fn push_char(s: &mut String, c: char)
    ensures
        final(s)@ == old(s)@.push(c),
{
    s.push(c);
}

/// A `String` holding exactly the given characters.
pub fn string_of_chars(cs: &[char]) -> (r: String)
    ensures
        r@ == cs@,
{
    let mut out = String::new();
    let mut i: usize = 0;
    while i < cs.len()
        invariant
            i <= cs@.len(),
            out@ == cs@.take(i as int),
        decreases cs.len() - i,
    {
        push_char(&mut out, cs[i]);
        i = i + 1;
        assert(out@ =~= cs@.take(i as int));
    }
    assert(cs@.take(cs@.len() as int) =~= cs@);
    out
}

} // verus!

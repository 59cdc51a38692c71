//! Parsers of network values: domain names, e-mail addresses, URLs and mobile
//! phone numbers, each taking its value from the front of the input.
use vstd::prelude::*;
use crate::chars::{char_is_alphanumeric, is_ascii_alpha, is_ascii_digit, is_multispace, unicode_alphanumeric};
use crate::utils::{is_space_span, skip_multispace};
use crate::text::{advance, chars_of, ParseFail, WResult};

verus! {

/// Characters a domain label may hold: letters and digits of any script, `-`,
/// and the CJK unified ideographs U+4E00..=U+9FA5.
pub open spec fn domain_char(c: char) -> bool {
    unicode_alphanumeric(c) || c == '-' || (0x4E00 <= (c as u32) && (c as u32) <= 0x9FA5)
}

fn is_domain_char(c: char) -> (r: bool)
    ensures
        r == domain_char(c),
{
    let v = c as u32;
    char_is_alphanumeric(c) || c == '-' || (0x4E00 <= v && v <= 0x9FA5)
}

/// `k` is the index of the first `.` of `s`.
pub open spec fn first_dot(s: Seq<char>, k: int) -> bool {
    &&& 0 <= k < s.len()
    &&& s[k] == '.'
    &&& forall|j: int| 0 <= j < k ==> s[j] != '.'
}

proof fn lemma_first_dot_unique(s: Seq<char>, a: int, b: int)
    requires
        first_dot(s, a),
        first_dot(s, b),
    ensures
        a == b,
{
}

/// Length of the label that opens `s` followed by `.`: at least one character,
/// all domain characters, neither first nor last being `-`.
pub open spec fn label_len(s: Seq<char>) -> Option<int> {
    if exists|k: int| first_dot(s, k) {
        let k = choose|k: int| first_dot(s, k);
        if k >= 1 && s[0] != '-' && s[k - 1] != '-' && (forall|j: int|
            0 <= j < k ==> domain_char(#[trigger] s[j])) {
            Some(k)
        } else {
            None
        }
    } else {
        None
    }
}

/// Takes one non-top-level label and the `.` after it.
pub fn non_root_domain<'a>(input: &mut &'a str) -> (r: WResult<&'a str>)
    ensures
        match label_len(old(input)@) {
            Some(k) => r matches Ok(v) && v@ == old(input)@.take(k) && final(input)@ == old(
                input,
            )@.skip(k + 1),
            None => r is Err && final(input)@ == old(input)@,
        },
{
    let cs = chars_of(*input);
    let n = cs.len();
    let mut k: usize = 0;
    while k < n && cs[k] != '.'
        invariant
            cs@ == input@,
            n == cs@.len(),
            k <= n,
            forall|j: int| 0 <= j < k ==> cs@[j] != '.',
        decreases n - k,
    {
        k = k + 1;
    }
    if k == n || k == 0 {
        proof {
            if exists|d: int| first_dot(cs@, d) {
                let d = choose|d: int| first_dot(cs@, d);
                if k == 0 {
                    lemma_first_dot_unique(cs@, d, 0);
                }
            }
        }
        return Err(ParseFail::expected("<split> ."));
    }
    proof {
        assert(first_dot(cs@, k as int));
        let d = choose|d: int| first_dot(cs@, d);
        lemma_first_dot_unique(cs@, d, k as int);
    }
    if cs[0] == '-' || cs[k - 1] == '-' {
        return Err(ParseFail::expected("<domain> not starting or ending with a b'-'"));
    }
    let mut j: usize = 0;
    while j < k && is_domain_char(cs[j])
        invariant
            cs@ == input@,
            k < n == cs@.len(),
            j <= k,
            forall|i: int| 0 <= i < j ==> domain_char(#[trigger] cs@[i]),
        decreases k - j,
    {
        j = j + 1;
    }
    if j == 0 {
        return Err(ParseFail::expected("<domain>::non_root_domain [0-9a-zA-Z-]"));
    }
    if j < k {
        return Err(ParseFail::expected("<domain> inconformity"));
    }
    let label = advance(input, k);
    advance(input, 1);
    proof {
        assert(old(input)@.skip(k as int).skip(1) =~= old(input)@.skip(k + 1));
    }
    Ok(label)
}

/// `n` is the length of the run of ASCII letters that opens `s`.
pub open spec fn alpha_span(s: Seq<char>, n: int) -> bool {
    &&& 0 <= n <= s.len()
    &&& forall|j: int| 0 <= j < n ==> is_ascii_alpha(#[trigger] s[j])
    &&& (n == s.len() || !is_ascii_alpha(s[n]))
}

/// Length of the run of ASCII letters that opens `s`.
pub open spec fn alpha_len(s: Seq<char>) -> int {
    choose|n: int| alpha_span(s, n)
}

proof fn lemma_alpha_len(s: Seq<char>, n: int)
    requires
        alpha_span(s, n),
    ensures
        alpha_len(s) == n,
{
    let m = alpha_len(s);
    assert(alpha_span(s, m));
    if m < n {
        assert(is_ascii_alpha(s[m]));
    } else if n < m {
        assert(is_ascii_alpha(s[n]));
    }
}

/// Takes the top-level label: 2 to 11 ASCII letters.
fn root_domain<'a>(input: &mut &'a str) -> (r: WResult<&'a str>)
    ensures
        0 <= alpha_len(old(input)@) <= old(input)@.len(),
        2 <= alpha_len(old(input)@) <= 11 ==> (r matches Ok(v) && v@ == old(input)@.take(
            alpha_len(old(input)@),
        ) && final(input)@ == old(input)@.skip(alpha_len(old(input)@))),
        !(2 <= alpha_len(old(input)@) <= 11) ==> (r is Err && final(input)@ == old(input)@),
{
    let cs = chars_of(*input);
    let n = cs.len();
    let mut k: usize = 0;
    while k < n && (('a' <= cs[k] && cs[k] <= 'z') || ('A' <= cs[k] && cs[k] <= 'Z'))
        invariant
            cs@ == input@,
            n == cs@.len(),
            k <= n,
            forall|j: int| 0 <= j < k ==> is_ascii_alpha(#[trigger] cs@[j]),
        decreases n - k,
    {
        k = k + 1;
    }
    proof {
        lemma_alpha_len(cs@, k as int);
    }
    if k == 0 {
        return Err(ParseFail::expected("<domain>::root_domain [a-zA-Z]"));
    }
    if k > 11 || k < 2 {
        return Err(ParseFail::expected("2 <= top_part len <= 11"));
    }
    Ok(advance(input, k))
}

/// The labels taken one after another from the front of `s`, and the number of
/// characters they and their dots span.
pub open spec fn domain_labels(s: Seq<char>) -> (Seq<Seq<char>>, int)
    decreases s.len(),
{
    match label_len(s) {
        Some(k) => if 0 <= k < s.len() {
            let rest = domain_labels(s.skip(k + 1));
            (seq![s.take(k)] + rest.0, k + 1 + rest.1)
        } else {
            (Seq::empty(), 0)
        },
        None => (Seq::empty(), 0),
    }
}

/// The labels joined by dots.
pub open spec fn join_dots(ls: Seq<Seq<char>>) -> Seq<char>
    decreases ls.len(),
{
    if ls.len() == 0 {
        Seq::empty()
    } else if ls.len() == 1 {
        ls[0]
    } else {
        join_dots(ls.drop_last()) + seq!['.'] + ls.last()
    }
}

/// The domain name at the front of `s` and how many characters it spans: one or
/// more labels, a top-level label, 67 characters at most.
pub open spec fn domain_at(s: Seq<char>) -> Option<(Seq<char>, int)> {
    let (ls, n) = domain_labels(s);
    let rest = s.skip(n);
    let r = alpha_len(rest);
    if ls.len() == 0 || r < 2 || r > 11 {
        None
    } else {
        let d = join_dots(ls) + seq!['.'] + rest.take(r);
        if d.len() > 67 {
            None
        } else {
            Some((d, n + r))
        }
    }
}

proof fn lemma_label_bounds(s: Seq<char>)
    ensures
        label_len(s) matches Some(k) ==> 1 <= k < s.len(),
{
    if exists|k: int| first_dot(s, k) {
        let k = choose|k: int| first_dot(s, k);
        assert(first_dot(s, k));
    }
}

proof fn lemma_alpha_prefix(s: Seq<char>) -> (n: int)
    ensures
        alpha_span(s, n),
        alpha_len(s) == n,
    decreases s.len(),
{
    let n = if s.len() == 0 || !is_ascii_alpha(s[0]) {
        0
    } else {
        let m = lemma_alpha_prefix(s.skip(1));
        assert forall|j: int| 0 <= j < m + 1 implies is_ascii_alpha(#[trigger] s[j]) by {
            if j > 0 {
                assert(s[j] == s.skip(1)[j - 1]);
            }
        }
        if m + 1 < s.len() {
            assert(s[m + 1] == s.skip(1)[m]);
        }
        m + 1
    };
    lemma_alpha_len(s, n);
    n
}

/// Every label taken from the front of `s` is one or more domain characters
/// without a dot, neither opening nor closing with `-`.
proof fn lemma_labels_shape(s: Seq<char>)
    ensures
        forall|i: int| 0 <= i < domain_labels(s).0.len() ==> {
            let l = #[trigger] domain_labels(s).0[i];
            &&& l.len() >= 1
            &&& l[0] != '-'
            &&& l[l.len() - 1] != '-'
            &&& forall|j: int| 0 <= j < l.len() ==> domain_char(#[trigger] l[j]) && l[j] != '.'
        },
    decreases s.len(),
{
    lemma_label_bounds(s);
    match label_len(s) {
        Some(k) => {
            if 0 <= k < s.len() {
                lemma_labels_shape(s.skip(k + 1));
                let k0 = choose|k: int| first_dot(s, k);
                assert(first_dot(s, k0));
                let ls = domain_labels(s).0;
                assert forall|i: int| 0 <= i < ls.len() implies {
                    let l = #[trigger] ls[i];
                    &&& l.len() >= 1
                    &&& l[0] != '-'
                    &&& l[l.len() - 1] != '-'
                    &&& forall|j: int| 0 <= j < l.len() ==> domain_char(#[trigger] l[j]) && l[j] != '.'
                } by {
                    if i > 0 {
                        assert(ls[i] == domain_labels(s.skip(k + 1)).0[i - 1]);
                    } else {
                        assert(ls[0] == s.take(k));
                    }
                }
            }
        },
        None => {},
    }
}

/// A domain name that `parse_domain` takes is at most 67 characters: its labels
/// are joined by dots, each one or more domain characters neither opening nor
/// closing with `-`, and it ends with a dot and a top-level label of 2 to 11
/// ASCII letters.
pub proof fn law_domain_shape(s: Seq<char>)
    requires
        domain_at(s) is Some,
    ensures
        ({
            let (ls, n) = domain_labels(s);
            let top = s.skip(n).take(alpha_len(s.skip(n)));
            let d = domain_at(s).unwrap().0;
            &&& d.len() <= 67
            &&& d == join_dots(ls) + seq!['.'] + top
            &&& ls.len() >= 1
            &&& forall|i: int| 0 <= i < ls.len() ==> {
                let l = #[trigger] ls[i];
                &&& l.len() >= 1
                &&& l[0] != '-'
                &&& l[l.len() - 1] != '-'
                &&& forall|j: int| 0 <= j < l.len() ==> domain_char(#[trigger] l[j]) && l[j] != '.'
            }
            &&& 2 <= top.len() <= 11
            &&& forall|j: int| 0 <= j < top.len() ==> is_ascii_alpha(#[trigger] top[j])
        }),
{
    lemma_labels_shape(s);
    let n = domain_labels(s).1;
    let r = lemma_alpha_prefix(s.skip(n));
    let top = s.skip(n).take(r);
    assert forall|j: int| 0 <= j < top.len() implies is_ascii_alpha(#[trigger] top[j]) by {
        assert(top[j] == s.skip(n)[j]);
    }
}

/// Takes a domain name from the front of `data`; the input is left as it was
/// when there is none.
pub fn parse_domain(data: &mut &str) -> (r: WResult<String>)
    ensures
        match domain_at(old(data)@) {
            Some((d, m)) => r matches Ok(v) && v@ == d && final(data)@ == old(data)@.skip(m),
            None => r is Err && final(data)@ == old(data)@,
        },
{
    let start: &str = *data;
    let mut joined = String::new();
    let mut any_label = false;
    let ghost mut ls: Seq<Seq<char>> = Seq::empty();
    let ghost mut n: int = 0;
    let mut done = false;
    proof {
        let dl = domain_labels(data@);
        assert(ls + dl.0 =~= dl.0);
    }
    while !done
        invariant
            start@ == old(data)@,
            0 <= n <= start@.len(),
            data@ == start@.skip(n),
            any_label == (ls.len() > 0),
            joined@ == join_dots(ls),
            !done ==> domain_labels(start@) == (ls + domain_labels(data@).0, n + domain_labels(
                data@,
            ).1),
            done ==> domain_labels(start@) == (ls, n),
        decreases data@.len() + (if done {
            0int
        } else {
            1int
        }),
    {
        let ghost before = data@;
        proof {
            lemma_label_bounds(before);
        }
        match non_root_domain(data) {
            Ok(label) => {
                let ghost k = label_len(before).unwrap();
                let ghost rest = domain_labels(data@);
                proof {
                    assert(ls + (seq![label@] + rest.0) =~= ls.push(label@) + rest.0);
                    assert(start@.skip(n).skip(k + 1) =~= start@.skip(n + k + 1));
                    if ls.len() > 0 {
                        assert(ls.push(label@).drop_last() =~= ls);
                    }
                }
                if any_label {
                    joined.append(".");
                }
                joined.append(label);
                proof {
                    reveal_strlit(".");
                    ls = ls.push(label@);
                    n = n + k + 1;
                }
                any_label = true;
            },
            Err(_) => {
                proof {
                    assert(ls + Seq::<Seq<char>>::empty() =~= ls);
                }
                done = true;
            },
        }
    }
    if !any_label {
        *data = start;
        return Err(ParseFail::expected("<split> ."));
    }
    let root = match root_domain(data) {
        Ok(v) => v,
        Err(e) => {
            *data = start;
            return Err(e);
        },
    };
    joined.append(".");
    joined.append(root);
    proof {
        reveal_strlit(".");
    }
    let total = chars_of(joined.as_str()).len();
    if total > 67 {
        *data = start;
        return Err(ParseFail::expected("domain length need <= 67"));
    }
    proof {
        assert(start@.skip(n).skip(alpha_len(start@.skip(n))) =~= start@.skip(
            n + alpha_len(start@.skip(n)),
        ));
    }
    Ok(joined)
}


/// Characters an e-mail token may hold: ASCII letters and digits, and
/// `@ . - _ + % ! # $ & ' * / = ? ^ ` { } | ~`.
pub open spec fn email_char(c: char) -> bool {
    is_ascii_alpha(c) || is_ascii_digit(c) || c == '@' || c == '.' || c == '-' || c == '_' || c
        == '+' || c == '%' || c == '!' || c == '#' || c == '$' || c == '&' || c == '\'' || c
        == '*' || c == '/' || c == '=' || c == '?' || c == '^' || c == '`' || c == '{' || c
        == '}' || c == '|' || c == '~'
}

fn is_email_char(c: char) -> (r: bool)
    ensures
        r == email_char(c),
{
    ('a' <= c && c <= 'z') || ('A' <= c && c <= 'Z') || ('0' <= c && c <= '9') || c == '@' || c
        == '.' || c == '-' || c == '_' || c == '+' || c == '%' || c == '!' || c == '#' || c
        == '$' || c == '&' || c == '\'' || c == '*' || c == '/' || c == '=' || c == '?' || c
        == '^' || c == '`' || c == '{' || c == '}' || c == '|' || c == '~'
}

/// `n` is the length of the run of characters satisfying `p` that opens `s`.
pub open spec fn run_span(s: Seq<char>, p: spec_fn(char) -> bool, n: int) -> bool {
    &&& 0 <= n <= s.len()
    &&& forall|j: int| 0 <= j < n ==> p(#[trigger] s[j])
    &&& (n == s.len() || !p(s[n]))
}

/// Length of the run of characters satisfying `p` that opens `s`.
pub open spec fn run_len(s: Seq<char>, p: spec_fn(char) -> bool) -> int {
    choose|n: int| run_span(s, p, n)
}

proof fn lemma_run_len(s: Seq<char>, p: spec_fn(char) -> bool, n: int)
    requires
        run_span(s, p, n),
    ensures
        run_len(s, p) == n,
{
    let m = run_len(s, p);
    assert(run_span(s, p, m));
    if m < n {
        assert(p(s[m]));
    } else if n < m {
        assert(p(s[n]));
    }
}

proof fn lemma_space_span_unique(s: Seq<char>, a: int, b: int)
    requires
        is_space_span(s, a),
        is_space_span(s, b),
    ensures
        a == b,
{
    if a < b {
        assert(is_multispace(s[a]));
    } else if b < a {
        assert(is_multispace(s[b]));
    }
}

/// The kinds of token taken after leading spaces.
#[derive(Clone, Copy)]
pub enum TokenClass {
    /// E-mail characters.
    Email,
    /// Anything but ` `.
    NonSpace,
}

/// The characters a token of class `k` holds.
pub open spec fn token_char(k: TokenClass) -> spec_fn(char) -> bool {
    match k {
        TokenClass::Email => |c: char| email_char(c),
        TokenClass::NonSpace => |c: char| c != ' ',
    }
}

fn is_token_char(k: TokenClass, c: char) -> (r: bool)
    ensures
        r == token_char(k)(c),
{
    match k {
        TokenClass::Email => is_email_char(c),
        TokenClass::NonSpace => c != ' ',
    }
}

/// Spaces that open `s`, then the run of `p` characters after them: their lengths.
pub open spec fn spaced_run(s: Seq<char>, p: spec_fn(char) -> bool) -> (int, int) {
    let a = choose|a: int| is_space_span(s, a);
    (a, run_len(s.skip(a), p))
}

/// Skips spaces, then takes the run of characters of class `k`; at least one is
/// needed, else the input is left as it was.
fn take_spaced_run<'a>(data: &mut &'a str, k: TokenClass) -> (r: Option<&'a str>)
    ensures
        ({
            let (a, n) = spaced_run(old(data)@, token_char(k));
            &&& 0 <= a <= old(data)@.len()
            &&& 0 <= n <= old(data)@.len() - a
            &&& n == 0 ==> r is None && final(data)@ == old(data)@
            &&& n > 0 ==> (r matches Some(v) && v@ == old(data)@.skip(a).take(n) && final(data)@
                == old(data)@.skip(a + n))
        }),
{
    let start: &str = *data;
    let spaces = skip_multispace(data);
    let ghost a = spaces@.len() as int;
    proof {
        let c = choose|x: int| is_space_span(start@, x);
        lemma_space_span_unique(start@, a, c);
    }
    let cs = chars_of(*data);
    let m = cs.len();
    let mut i: usize = 0;
    while i < m && is_token_char(k, cs[i])
        invariant
            cs@ == data@,
            m == cs@.len(),
            i <= m,
            forall|j: int| 0 <= j < i ==> token_char(k)(#[trigger] cs@[j]),
        decreases m - i,
    {
        i = i + 1;
    }
    proof {
        lemma_run_len(cs@, token_char(k), i as int);
    }
    if i == 0 {
        *data = start;
        return None;
    }
    let tok = advance(data, i);
    proof {
        assert(start@.skip(a).skip(i as int) =~= start@.skip(a + i));
    }
    Some(tok)
}

/// Whether `email` is a well-formed address in the sense of
/// `fast_chemail::is_valid_email`, the format check that `mailchecker` runs first.
pub uninterp spec fn email_format_ok(email: Seq<char>) -> bool;

/// Calls `mailchecker::is_valid`. It accepts `email` only when
/// `fast_chemail::is_valid_email` does (named `email_format_ok`) and its domain is
/// not a known disposable-mail domain; that list also takes domains registered
/// with the checker at run time, so acceptance itself is not stated.
#[verifier::external_body]
fn mail_is_valid(email: &str) -> (r: bool)
    ensures
        r ==> email_format_ok(email@),
{
    mailchecker::is_valid(email)
}

/// Takes an e-mail address (after leading spaces) that the checker accepts. The
/// token is the run of e-mail characters. Without such a run the leading spaces
/// stay consumed; a token the checker refuses leaves the input as it was.
pub fn parse_email(data: &mut &str) -> (r: WResult<String>)
    ensures
        ({
            let (a, n) = spaced_run(old(data)@, token_char(TokenClass::Email));
            &&& n == 0 ==> (r matches Err(e) && e.context@ == "<email>"@ && final(data)@
                == old(data)@.skip(a))
            &&& r matches Ok(v) ==> n > 0 && v@ == old(data)@.skip(a).take(n) && final(data)@
                == old(data)@.skip(a + n) && email_format_ok(v@)
            &&& (r is Err && n > 0) ==> final(data)@ == old(data)@ && (r matches Err(e)
                && e.context@ == "email format not match"@)
        }),
{
    let start: &str = *data;
    let tok = match take_spaced_run(data, TokenClass::Email) {
        Some(t) => t,
        None => {
            let sp = skip_multispace(data);
            proof {
                lemma_space_span_unique(start@, sp@.len() as int, spaced_run(
                    start@,
                    token_char(TokenClass::Email),
                ).0);
            }
            return Err(ParseFail::expected("<email>"));
        },
    };
    if mail_is_valid(tok) {
        Ok(tok.to_owned())
    } else {
        *data = start;
        Err(ParseFail::expected("email format not match"))
    }
}

/// The serialisation of the URL that `text` parses to, if it parses.
pub uninterp spec fn url_serialization(text: Seq<char>) -> Option<Seq<char>>;

/// Calls `url::Url::parse` and serialises the result. Its outcome is named
/// `url_serialization`; the WHATWG parsing and normalising rules are not restated.
#[verifier::external_body]
fn url_parse_serialize(text: &str) -> (r: Option<String>)
    ensures
        match r {
            Some(s) => url_serialization(text@) == Some(s@),
            None => url_serialization(text@) is None,
        },
{
    match url::Url::parse(text) {
        Ok(u) => Some(String::from(u)),
        Err(_) => None,
    }
}

/// Takes a URL: after leading spaces, the run of characters other than ` `,
/// parsed and normalised. The input is left as it was on failure.
pub fn parse_url(data: &mut &str) -> (r: WResult<String>)
    ensures
        ({
            let (a, n) = spaced_run(old(data)@, token_char(TokenClass::NonSpace));
            let tok = old(data)@.skip(a).take(n);
            &&& n == 0 ==> (r matches Err(e) && e.context@ == "<url>"@ && final(data)@ == old(
                data,
            )@)
            &&& n > 0 ==> match url_serialization(tok) {
                Some(u) => (r matches Ok(v) && v@ == u && final(data)@ == old(data)@.skip(a + n)),
                None => (r matches Err(e) && e.context@ == "url format not match"@
                    && final(data)@ == old(data)@),
            }
        }),
{
    let start: &str = *data;
    let tok = match take_spaced_run(data, TokenClass::NonSpace) {
        Some(t) => t,
        None => {
            return Err(ParseFail::expected("<url>"));
        },
    };
    match url_parse_serialize(tok) {
        Some(u) => Ok(u),
        None => {
            *data = start;
            Err(ParseFail::expected("url format not match"))
        },
    }
}

/// What `phone::is_valid_phone` accepts: ASCII digits and `+`, a `+` only in front.
pub open spec fn phone_accepts(s: Seq<char>) -> bool {
    forall|i: int|
        0 <= i < s.len() ==> (is_ascii_digit(#[trigger] s[i]) || s[i] == '+') && (s[i] == '+'
            ==> i == 0)
}

/// Calls `phone::is_valid_phone`, which scans the bytes of `phone`: each must be
/// an ASCII digit or `+`, and a `+` may stand only first.
#[verifier::external_body]
fn phone_is_valid(phone: &str) -> (r: bool)
    ensures
        r == phone_accepts(phone@),
{
    phone::is_valid_phone(phone)
}

/// Takes a mobile phone number: the run of ASCII digits at the front of `data`,
/// at least one. The input is left as it was on failure.
pub fn parse_mobile_phone(data: &mut &str) -> (r: WResult<String>)
    ensures
        ({
            let n = run_len(old(data)@, |c: char| is_ascii_digit(c));
            &&& 0 <= n <= old(data)@.len()
            &&& n == 0 ==> (r matches Err(e) && e.context@ == "<mobile_phone>"@ && final(data)@
                == old(data)@)
            &&& n > 0 ==> (r matches Ok(v) && v@ == old(data)@.take(n) && final(data)@ == old(
                data,
            )@.skip(n))
        }),
{
    let cs = chars_of(*data);
    let m = cs.len();
    let mut k: usize = 0;
    while k < m && '0' <= cs[k] && cs[k] <= '9'
        invariant
            cs@ == data@,
            m == cs@.len(),
            k <= m,
            forall|j: int| 0 <= j < k ==> is_ascii_digit(#[trigger] cs@[j]),
        decreases m - k,
    {
        k = k + 1;
    }
    proof {
        lemma_run_len(cs@, |c: char| is_ascii_digit(c), k as int);
    }
    if k == 0 {
        return Err(ParseFail::expected("<mobile_phone>"));
    }
    let start: &str = *data;
    let phone = advance(data, k);
    if phone_is_valid(phone) {
        Ok(phone.to_owned())
    } else {
        proof {
            assert(phone_accepts(phone@));
        }
        *data = start;
        Err(ParseFail::expected("mobile_phone format not match"))
    }
}

} // verus!

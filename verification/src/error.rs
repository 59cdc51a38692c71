//! Reporting where a parse failed: line and column of a byte offset, and the
//! text that shows the failing line with a caret under the column.
use vstd::prelude::*;
use vstd::utf8::{decode_utf8, encode_scalar, encode_utf8, valid_utf8};
use crate::encoding::{lemma_encode_utf8_concat, str_from_utf8};
use crate::text::{chars_of, find_from, first_occurrence_from, occurs_at, push_char};
use crate::utils::find_spec;

verus! {

broadcast use vstd::utf8::group_utf8_lib;

/// Number of line feeds (byte 10) in `b`.
pub open spec fn count_nl_bytes(b: Seq<u8>) -> nat
    decreases b.len(),
{
    if b.len() == 0 {
        0
    } else {
        count_nl_bytes(b.drop_last()) + if b.last() == 10u8 {
            1nat
        } else {
            0nat
        }
    }
}

/// Number of `\n` characters in `s`.
pub open spec fn count_nl_chars(s: Seq<char>) -> nat
    decreases s.len(),
{
    if s.len() == 0 {
        0
    } else {
        count_nl_chars(s.drop_last()) + if s.last() == '\n' {
            1nat
        } else {
            0nat
        }
    }
}

/// Index of the last line feed in `b[0..i]`.
pub open spec fn last_nl_before(b: Seq<u8>, i: int) -> Option<int>
    decreases i,
{
    if i <= 0 {
        None
    } else if b[i - 1] == 10u8 {
        Some(i - 1)
    } else {
        last_nl_before(b, i - 1)
    }
}

/// `(line, column)`, both counted from zero, of byte `index` in `b`: the line
/// is the number of line feeds before the start of its line; the column counts
/// the characters from the start of the line when that part is valid UTF-8
/// (else the bytes). An index past the end is clamped to the last byte and the
/// excess added to the column.
pub open spec fn position_of(b: Seq<u8>, index: int) -> (int, int) {
    if b.len() == 0 {
        (0, index)
    } else {
        let safe = if index < b.len() - 1 {
            index
        } else {
            b.len() - 1
        };
        let ls = match last_nl_before(b, safe) {
            Some(nl) => nl + 1,
            None => 0,
        };
        let line = count_nl_bytes(b.take(ls)) as int;
        let seg = b.subrange(ls, safe + 1);
        let col = if valid_utf8(seg) {
            decode_utf8(seg).len() - 1
        } else {
            safe - ls
        };
        (line, col + (index - safe))
    }
}

proof fn lemma_count_nl_bytes_concat(a: Seq<u8>, b: Seq<u8>)
    ensures
        count_nl_bytes(a + b) == count_nl_bytes(a) + count_nl_bytes(b),
    decreases b.len(),
{
    if b.len() == 0 {
        assert(a + b =~= a);
    } else {
        lemma_count_nl_bytes_concat(a, b.drop_last());
        assert((a + b).drop_last() =~= a + b.drop_last());
    }
}

proof fn lemma_count_nl_bytes_take(b: Seq<u8>, k: int)
    requires
        0 <= k <= b.len(),
    ensures
        count_nl_bytes(b.take(k)) <= count_nl_bytes(b),
{
    lemma_count_nl_bytes_concat(b.take(k), b.skip(k));
    assert(b.take(k) + b.skip(k) =~= b);
}

proof fn lemma_last_nl_bounds(b: Seq<u8>, i: int)
    requires
        0 <= i <= b.len(),
    ensures
        last_nl_before(b, i) matches Some(j) ==> 0 <= j < i && b[j] == 10u8,
    decreases i,
{
    if i > 0 && b[i - 1] != 10u8 {
        lemma_last_nl_bounds(b, i - 1);
    }
}

/// A character other than `\n` has no byte 10 in its encoding.
proof fn lemma_scalar_nl(c: char)
    ensures
        count_nl_bytes(encode_scalar(c as u32)) == if c == '\n' {
            1nat
        } else {
            0nat
        },
{
    let v = c as u32;
    let e = encode_scalar(v);
    if v <= 0x7F {
        let b = (v & 0x7F) as u8;
        assert(b as u32 == v) by (bit_vector)
            requires
                v <= 0x7F,
                b == (v & 0x7F) as u8,
        ;
        assert(e =~= seq![b]);
        assert(e.drop_last() =~= Seq::<u8>::empty());
        assert(count_nl_bytes(e) == count_nl_bytes(e.drop_last()) + if b == 10u8 {
            1nat
        } else {
            0nat
        });
    } else {
        let b1 = 0xC0u8 | ((v >> 6) & 0x1F) as u8;
        let b2 = 0xE0u8 | ((v >> 12) & 0x0F) as u8;
        let b3 = 0xF0u8 | ((v >> 18) & 0x7) as u8;
        let c1 = 0x80u8 | (v & 0x3F) as u8;
        let c2 = 0x80u8 | ((v >> 6) & 0x3F) as u8;
        let c3 = 0x80u8 | ((v >> 12) & 0x3F) as u8;
        assert(b1 >= 0x80u8 && b2 >= 0x80u8 && b3 >= 0x80u8 && c1 >= 0x80u8 && c2 >= 0x80u8
            && c3 >= 0x80u8) by (bit_vector)
            requires
                b1 == 0xC0u8 | ((v >> 6) & 0x1F) as u8,
                b2 == 0xE0u8 | ((v >> 12) & 0x0F) as u8,
                b3 == 0xF0u8 | ((v >> 18) & 0x7) as u8,
                c1 == 0x80u8 | (v & 0x3F) as u8,
                c2 == 0x80u8 | ((v >> 6) & 0x3F) as u8,
                c3 == 0x80u8 | ((v >> 12) & 0x3F) as u8,
        ;
        if v <= 0x7FF {
            assert(e =~= seq![b1, c1]);
        } else if v <= 0xFFFF {
            assert(e =~= seq![b2, c2, c1]);
        } else {
            assert(e =~= seq![b3, c3, c2, c1]);
        }
        lemma_count_nl_high(e);
    }
}

proof fn lemma_count_nl_high(e: Seq<u8>)
    requires
        forall|j: int| 0 <= j < e.len() ==> e[j] >= 0x80u8,
    ensures
        count_nl_bytes(e) == 0,
    decreases e.len(),
{
    if e.len() > 0 {
        lemma_count_nl_high(e.drop_last());
    }
}

/// Line feeds in the UTF-8 bytes are exactly the `\n` characters.
proof fn lemma_count_nl_encode(s: Seq<char>)
    ensures
        count_nl_bytes(encode_utf8(s)) == count_nl_chars(s),
    decreases s.len(),
{
    if s.len() > 0 {
        let init = s.drop_last();
        lemma_count_nl_encode(init);
        lemma_encode_utf8_concat(init, seq![s.last()]);
        assert(init + seq![s.last()] =~= s);
        crate::encoding::lemma_encode_utf8_single(s.last());
        lemma_count_nl_bytes_concat(encode_utf8(init), encode_scalar(s.last() as u32));
        lemma_scalar_nl(s.last());
    }
}

/// The `k`-th line of `s` (from zero), lines being separated by `\n`
/// (`str::split('\n').nth(k)`).
pub open spec fn nth_line(s: Seq<char>, k: nat) -> Option<Seq<char>>
    decreases k,
{
    match find_spec(s, seq!['\n'], 0) {
        Some(p) => if k == 0 {
            Some(s.take(p))
        } else {
            nth_line(s.skip(p + 1), (k - 1) as nat)
        },
        None => if k == 0 {
            Some(s)
        } else {
            None
        },
    }
}

proof fn lemma_count_nl_chars_concat(a: Seq<char>, b: Seq<char>)
    ensures
        count_nl_chars(a + b) == count_nl_chars(a) + count_nl_chars(b),
    decreases b.len(),
{
    if b.len() == 0 {
        assert(a + b =~= a);
    } else {
        lemma_count_nl_chars_concat(a, b.drop_last());
        assert((a + b).drop_last() =~= a + b.drop_last());
    }
}

proof fn lemma_count_nl_none(s: Seq<char>)
    requires
        forall|j: int| 0 <= j < s.len() ==> s[j] != '\n',
    ensures
        count_nl_chars(s) == 0,
    decreases s.len(),
{
    if s.len() > 0 {
        lemma_count_nl_none(s.drop_last());
    }
}

/// Splitting at the first line feed: the part before holds none, and the
/// line feeds of the whole are one more than those after it.
proof fn lemma_count_split(s: Seq<char>, p: int)
    requires
        first_occurrence_from(s, seq!['\n'], 0, p),
    ensures
        count_nl_chars(s) == 1 + count_nl_chars(s.skip(p + 1)),
{
    let nl = seq!['\n'];
    assert forall|j: int| 0 <= j < p implies s.take(p)[j] != '\n' by {
        assert(!occurs_at(s, nl, j));
        assert(s.subrange(j, j + 1) =~= seq![s[j]]);
    }
    lemma_count_nl_none(s.take(p));
    assert(occurs_at(s, nl, p));
    assert(s.subrange(p, p + 1) == nl);
    assert(s.subrange(p, p + 1)[0] == s[p]);
    assert(s[p] == '\n');
    assert(s.take(p) + seq![s[p]] =~= s.take(p + 1));
    lemma_count_nl_chars_concat(s.take(p), seq![s[p]]);
    assert(seq![s[p]].drop_last() =~= Seq::<char>::empty());
    assert(count_nl_chars(Seq::<char>::empty()) == 0);
    assert(count_nl_chars(seq![s[p]]) == 1);
    lemma_count_nl_chars_concat(s.take(p + 1), s.skip(p + 1));
    assert(s.take(p + 1) + s.skip(p + 1) =~= s);
}

/// Without any line feed, the count is zero.
proof fn lemma_count_no_first(s: Seq<char>)
    requires
        find_spec(s, seq!['\n'], 0) is None,
    ensures
        count_nl_chars(s) == 0,
{
    let nl = seq!['\n'];
    assert forall|j: int| 0 <= j < s.len() implies s[j] != '\n' by {
        if s[j] == '\n' {
            assert(s.subrange(j, j + 1) =~= nl);
            lemma_first_exists(s, nl, j);
        }
    }
    lemma_count_nl_none(s);
}

/// There is a `k`-th line exactly when `s` has at least `k` line feeds.
proof fn lemma_nth_line_exists(s: Seq<char>, k: nat)
    ensures
        nth_line(s, k) is Some <==> k <= count_nl_chars(s),
    decreases k,
{
    match find_spec(s, seq!['\n'], 0) {
        Some(p) => {
            assert(first_occurrence_from(s, seq!['\n'], 0, p));
            lemma_count_split(s, p);
            if k > 0 {
                lemma_nth_line_exists(s.skip(p + 1), (k - 1) as nat);
            }
        },
        None => {
            lemma_count_no_first(s);
        },
    }
}

/// An occurrence implies a first occurrence.
proof fn lemma_first_exists(s: Seq<char>, pat: Seq<char>, j: int)
    requires
        occurs_at(s, pat, j),
    ensures
        exists|i: int| first_occurrence_from(s, pat, 0, i),
    decreases j,
{
    if exists|i: int| 0 <= i < j && occurs_at(s, pat, i) {
        let i = choose|i: int| 0 <= i < j && occurs_at(s, pat, i);
        lemma_first_exists(s, pat, i);
    } else {
        assert(first_occurrence_from(s, pat, 0, j));
    }
}

/// Line and column (from zero) of byte `index` in `input`.
pub fn translate_position(input: &[u8], index: usize) -> (r: (usize, usize))
    ensures
        (r.0 as int, r.1 as int) == position_of(input@, index as int),
        input@.len() > 0 ==> r.0 <= index && r.1 <= index,
{
    if input.len() == 0 {
        return (0, index);
    }
    let safe_index = if index < input.len() - 1 {
        index
    } else {
        input.len() - 1
    };
    let column_offset = index - safe_index;
    let mut i = safe_index;
    while i > 0 && input[i - 1] != 10
        invariant
            i <= safe_index < input@.len(),
            last_nl_before(input@, safe_index as int) == last_nl_before(input@, i as int),
        decreases i,
    {
        i = i - 1;
    }
    let nl: Option<usize> = if i > 0 {
        Some(i - 1)
    } else {
        None
    };
    proof {
        lemma_last_nl_bounds(input@, safe_index as int);
    }
    let line_start = match nl {
        Some(p) => p + 1,
        None => 0,
    };
    assert(line_start as int == match last_nl_before(input@, safe_index as int) {
        Some(p) => p + 1,
        None => 0,
    });
    let mut line: usize = 0;
    let mut k: usize = 0;
    assert(input@.take(0) =~= Seq::<u8>::empty());
    while k < line_start
        invariant
            k <= line_start <= safe_index < input@.len(),
            line as int == count_nl_bytes(input@.take(k as int)),
            line <= k,
        decreases line_start - k,
    {
        assert(input@.take(k + 1).drop_last() =~= input@.take(k as int));
        if input[k] == 10 {
            line = line + 1;
        }
        k = k + 1;
    }
    let seg = slice_range(input, line_start, safe_index + 1);
    let column = match str_from_utf8(&seg) {
        Some(s) => {
            proof {
                lemma_decode_len(seg@);
            }
            s.unicode_len() - 1
        },
        None => safe_index - line_start,
    };
    (line, column + column_offset)
}

/// A non-empty valid UTF-8 text decodes to at least one and at most as many
/// characters as it has bytes.
proof fn lemma_decode_len(b: Seq<u8>)
    requires
        valid_utf8(b),
    ensures
        decode_utf8(b).len() <= b.len(),
        b.len() > 0 ==> decode_utf8(b).len() > 0,
    decreases b.len(),
{
    if b.len() > 0 {
        let rest = vstd::utf8::pop_first_scalar(b);
        let l = vstd::utf8::length_of_first_scalar(b);
        assert(1 <= l <= b.len());
        assert(rest.len() == b.len() - l);
        lemma_decode_len(rest);
    }
}

fn slice_range(b: &[u8], from: usize, to: usize) -> (r: Vec<u8>)
    requires
        from <= to <= b@.len(),
    ensures
        r@ == b@.subrange(from as int, to as int),
{
    let mut r: Vec<u8> = Vec::new();
    let mut i = from;
    while i < to
        invariant
            from <= i <= to <= b@.len(),
            r@ == b@.subrange(from as int, i as int),
        decreases to - i,
    {
        r.push(b[i]);
        i = i + 1;
        assert(r@ =~= b@.subrange(from as int, i as int));
    }
    r
}

/// The decimal digit `d` as a character.
pub open spec fn digit_char(d: int) -> char {
    if d == 0 {
        '0'
    } else if d == 1 {
        '1'
    } else if d == 2 {
        '2'
    } else if d == 3 {
        '3'
    } else if d == 4 {
        '4'
    } else if d == 5 {
        '5'
    } else if d == 6 {
        '6'
    } else if d == 7 {
        '7'
    } else if d == 8 {
        '8'
    } else {
        '9'
    }
}

/// The decimal notation of `n`.
pub open spec fn decimal(n: nat) -> Seq<char>
    decreases n,
{
    if n < 10 {
        seq![digit_char(n as int)]
    } else {
        decimal(n / 10) + seq![digit_char((n % 10) as int)]
    }
}

/// `n` copies of `c`.
pub open spec fn repeated(c: char, n: nat) -> Seq<char> {
    Seq::new(n, |i: int| c)
}

fn digit_to_char(d: usize) -> (c: char)
    requires
        d < 10,
    ensures
        c == digit_char(d as int),
{
    if d == 0 {
        '0'
    } else if d == 1 {
        '1'
    } else if d == 2 {
        '2'
    } else if d == 3 {
        '3'
    } else if d == 4 {
        '4'
    } else if d == 5 {
        '5'
    } else if d == 6 {
        '6'
    } else if d == 7 {
        '7'
    } else if d == 8 {
        '8'
    } else {
        '9'
    }
}

/// Appends the decimal notation of `n`.
pub fn push_decimal(out: &mut String, n: usize)
    ensures
        final(out)@ == old(out)@ + decimal(n as nat),
    decreases n,
{
    if n >= 10 {
        push_decimal(out, n / 10);
    }
    push_char(out, digit_to_char(n % 10));
    assert(final(out)@ =~= old(out)@ + decimal(n as nat)) by {
        if n >= 10 {
            assert(old(out)@ + decimal(n as nat) =~= old(out)@ + decimal((n / 10) as nat) + seq![
                digit_char((n % 10) as int),
            ]);
        }
    }
}

fn push_repeated(out: &mut String, c: char, n: u128)
    ensures
        final(out)@ == old(out)@ + repeated(c, n as nat),
{
    let mut i: u128 = 0;
    while i < n
        invariant
            i <= n,
            out@ == old(out)@ + repeated(c, i as nat),
        decreases n - i,
    {
        push_char(out, c);
        i = i + 1;
        assert(out@ =~= old(out)@ + repeated(c, i as nat));
    }
}

/// A parse failure as the report needs it: the whole input, the byte offset at
/// which parsing stopped, and the parser's own message.
pub struct ParseErrorInfo<'a> {
    pub input: &'a str,
    pub offset: usize,
    pub message: String,
}

/// The layout of a report: header, gutter, the line, the caret, the message.
pub open spec fn report_text(
    line_num: nat,
    col_num: nat,
    content: Seq<char>,
    extra: nat,
    message: Seq<char>,
) -> Seq<char> {
    let gutter = decimal(line_num).len();
    "parse error at line "@ + decimal(line_num) + ", column "@ + decimal(col_num) + seq!['\n']
        + repeated(' ', gutter + 1) + seq!['|', '\n'] + decimal(line_num) + " | "@ + content
        + seq!['\n'] + repeated(' ', gutter + 1) + seq!['|'] + repeated(' ', col_num)
        + seq!['^'] + repeated('^', extra) + seq!['\n', '\n'] + message
}

/// The report `error_detail` writes: a header with line and column (from
/// one), a gutter as wide as the line number, the failing line, a caret under
/// the column, and the parser's message.
pub open spec fn error_detail_text(input: Seq<char>, offset: int, message: Seq<char>) -> Seq<char> {
    let b = encode_utf8(input);
    let end = if offset == b.len() {
        offset
    } else {
        offset + 1
    };
    let (line, column) = position_of(b, offset);
    let content = nth_line(input, line as nat).unwrap();
    let hi = if end <= offset + encode_utf8(content).len() {
        end
    } else {
        offset + encode_utf8(content).len()
    };
    let extra = if hi > offset + 1 {
        (hi - (offset + 1)) as nat
    } else {
        0nat
    };
    report_text((line + 1) as nat, (column + 1) as nat, content, extra, message)
}

fn render_report(line_num: usize, col_num: usize, content: &str, extra: u128, message: &str) -> (r:
    String)
    ensures
        r@ == report_text(line_num as nat, col_num as nat, content@, extra as nat, message@),
{
    let mut gutter_s = String::new();
    push_decimal(&mut gutter_s, line_num);
    let gutter = gutter_s.unicode_len() as u128;
    let mut msg = String::new();
    msg.append("parse error at line ");
    push_decimal(&mut msg, line_num);
    msg.append(", column ");
    push_decimal(&mut msg, col_num);
    push_char(&mut msg, '\n');
    push_repeated(&mut msg, ' ', gutter + 1);
    push_char(&mut msg, '|');
    push_char(&mut msg, '\n');
    let ghost part1 = msg@;
    push_decimal(&mut msg, line_num);
    msg.append(" | ");
    msg.append(content);
    push_char(&mut msg, '\n');
    push_repeated(&mut msg, ' ', gutter + 1);
    push_char(&mut msg, '|');
    push_repeated(&mut msg, ' ', col_num as u128);
    push_char(&mut msg, '^');
    push_repeated(&mut msg, '^', extra);
    push_char(&mut msg, '\n');
    push_char(&mut msg, '\n');
    msg.append(message);
    assert(msg@ =~= report_text(line_num as nat, col_num as nat, content@, extra as nat, message@));
    msg
}

/// The line of `cs` numbered `k` (from zero): its start and end index.
fn nth_line_range(cs: &[char], k: usize) -> (r: Option<(usize, usize)>)
    ensures
        match r {
            Some((a, b)) => a <= b <= cs@.len() && nth_line(cs@, k as nat) == Some(
                cs@.subrange(a as int, b as int),
            ),
            None => nth_line(cs@, k as nat) is None,
        },
{
    let mut nl: Vec<char> = Vec::new();
    nl.push('\n');
    assert(nl@ =~= seq!['\n']);
    assert(cs@.len() == cs.len());
    let mut start: usize = 0;
    let mut j: usize = 0;
    assert(cs@.skip(0) =~= cs@);
    while j < k
        invariant
            start <= cs@.len(),
            cs@.len() == cs.len(),
            nl@ == seq!['\n'],
            j <= k,
            nth_line(cs@, k as nat) == nth_line(cs@.skip(start as int), (k - j) as nat),
        decreases k - j,
    {
        match crate::utils::find(cs, &nl, start) {
            Some(p) => {
                proof {
                    lemma_find_shift(cs@, nl@, start as int);
                    assert(cs@.skip(start as int).skip(p - start + 1) =~= cs@.skip(p + 1));
                }
                start = p + 1;
                j = j + 1;
            },
            None => {
                proof {
                    lemma_find_shift(cs@, nl@, start as int);
                }
                return None;
            },
        }
    }
    match crate::utils::find(cs, &nl, start) {
        Some(p) => {
            proof {
                lemma_find_shift(cs@, nl@, start as int);
                assert(cs@.skip(start as int).take(p - start) =~= cs@.subrange(
                    start as int,
                    p as int,
                ));
            }
            Some((start, p))
        },
        None => {
            proof {
                lemma_find_shift(cs@, nl@, start as int);
                assert(cs@.skip(start as int) =~= cs@.subrange(start as int, cs@.len() as int));
            }
            Some((start, cs.len()))
        },
    }
}

/// Searching from `from` is searching the suffix from there, shifted.
proof fn lemma_find_shift(s: Seq<char>, pat: Seq<char>, from: int)
    requires
        0 <= from <= s.len(),
    ensures
        match find_spec(s, pat, from) {
            Some(p) => find_spec(s.skip(from), pat, 0) == Some(p - from) && from <= p && p
                + pat.len() <= s.len(),
            None => find_spec(s.skip(from), pat, 0) is None,
        },
{
    let t = s.skip(from);
    assert forall|i: int| 0 <= i implies occurs_at(t, pat, i) == occurs_at(s, pat, i + from) by {
        if i + pat.len() <= t.len() {
            assert(t.subrange(i, i + pat.len()) =~= s.subrange(i + from, i + from + pat.len()));
        }
    }
    match find_spec(s, pat, from) {
        Some(p) => {
            assert(first_occurrence_from(s, pat, from, p));
            assert(first_occurrence_from(t, pat, 0, p - from));
            let q = choose|q: int| first_occurrence_from(t, pat, 0, q);
            if q < p - from {
                assert(occurs_at(s, pat, q + from));
            } else if q > p - from {
                assert(!occurs_at(t, pat, p - from));
            }
        },
        None => {
            if exists|q: int| first_occurrence_from(t, pat, 0, q) {
                let q = choose|q: int| first_occurrence_from(t, pat, 0, q);
                assert(occurs_at(s, pat, q + from));
                assert forall|j: int| from <= j < q + from implies !occurs_at(s, pat, j) by {
                    assert(!occurs_at(t, pat, j - from));
                }
                assert(first_occurrence_from(s, pat, from, q + from));
            }
        },
    }
}

/// Line, column and the range of the failing line for a report.
fn locate(source_text: &str, offset: usize) -> (r: (usize, usize, usize, usize))
    requires
        offset <= encode_utf8(source_text@).len(),
    ensures
        (r.0 as int, r.1 as int) == position_of(encode_utf8(source_text@), offset as int),
        r.0 <= offset && r.1 <= offset,
        r.2 <= r.3 <= source_text@.len(),
        nth_line(source_text@, r.0 as nat) == Some(source_text@.subrange(r.2 as int, r.3 as int)),
{
    let bytes = source_text.as_bytes();
    let (line, column) = translate_position(bytes, offset);
    let cs = chars_of(source_text);
    proof {
        let b = encode_utf8(source_text@);
        if b.len() > 0 {
            let safe = if offset < b.len() - 1 {
                offset as int
            } else {
                b.len() - 1
            };
            lemma_last_nl_bounds(b, safe);
            let ls = match last_nl_before(b, safe) {
                Some(nl) => nl + 1,
                None => 0,
            };
            lemma_count_nl_bytes_take(b, ls);
        }
        lemma_count_nl_encode(source_text@);
        lemma_nth_line_exists(source_text@, line as nat);
    }
    let range = nth_line_range(&cs, line);
    let (a, b) = range.unwrap();
    (line, column, a, b)
}

/// Renders a parse failure: where it happened (line and column from one),
/// the failing line with a caret under the column, and the parser's message.
pub fn error_detail(error: ParseErrorInfo) -> (r: String)
    requires
        error.offset <= encode_utf8(error.input@).len(),
        error.offset < usize::MAX,
    ensures
        r@ == error_detail_text(error.input@, error.offset as int, error.message@),
{
    let offset = error.offset;
    let source_text = error.input;
    let byte_len = source_text.as_bytes().len();
    let end: usize = if offset == byte_len {
        offset
    } else {
        offset + 1
    };
    let (line, column, a, b) = locate(source_text, offset);
    let content = source_text.substring_char(a, b);
    let content_chars = chars_of(content);
    let content_len = crate::sep::utf8_len_of(&content_chars);
    let lo: u128 = offset as u128 + 1;
    let cap: u128 = offset as u128 + content_len;
    let hi: u128 = if (end as u128) <= cap {
        end as u128
    } else {
        cap
    };
    let extra: u128 = if hi > lo {
        hi - lo
    } else {
        0
    };
    render_report(line + 1, column + 1, content, extra, error.message.as_str())
}

} // verus!

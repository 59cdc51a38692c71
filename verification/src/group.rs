//! The kinds of field groups.
use vstd::prelude::*;
use crate::text::{chars_of, string_of_chars};

verus! {

/// Fields matched in order.
#[derive(Default, Debug, PartialEq, Eq, Clone, Copy)]
pub struct GroupSeq;

/// Fields that may be absent.
#[derive(Default, Debug, PartialEq, Eq, Clone, Copy)]
pub struct GroupOpt;

/// One of the fields.
#[derive(Default, Debug, PartialEq, Eq, Clone, Copy)]
pub struct GroupAlt;

/// Some of the fields, in any order.
#[derive(Default, Debug, PartialEq, Eq, Clone, Copy)]
pub struct GroupSomeOf;

/// The kind of a group.
#[derive(Debug, PartialEq, Eq, Clone, Copy)]
pub enum WplGroupType {
    Opt(GroupOpt),
    Sequence(GroupSeq),
    Alt(GroupAlt),
    SomeOf(GroupSomeOf),
}

impl Default for WplGroupType {
    fn default() -> (r: WplGroupType)
        ensures
            r == WplGroupType::Sequence(GroupSeq),
    {
        WplGroupType::Sequence(GroupSeq)
    }
}

/// The keyword of a group kind.
pub open spec fn group_word(t: WplGroupType) -> Seq<char> {
    match t {
        WplGroupType::Opt(_) => seq!['o', 'p', 't'],
        WplGroupType::Sequence(_) => seq!['s', 'e', 'q'],
        WplGroupType::Alt(_) => seq!['a', 'l', 't'],
        WplGroupType::SomeOf(_) => seq!['s', 'o', 'm', 'e', '_', 'o', 'f'],
    }
}

/// The group kind a keyword names: `opt`, `order` or `seq`, `alt`, `some_of`.
pub open spec fn group_of_word(w: Seq<char>) -> Option<WplGroupType> {
    if w == seq!['o', 'p', 't'] {
        Some(WplGroupType::Opt(GroupOpt))
    } else if w == seq!['o', 'r', 'd', 'e', 'r'] || w == seq!['s', 'e', 'q'] {
        Some(WplGroupType::Sequence(GroupSeq))
    } else if w == seq!['a', 'l', 't'] {
        Some(WplGroupType::Alt(GroupAlt))
    } else if w == seq!['s', 'o', 'm', 'e', '_', 'o', 'f'] {
        Some(WplGroupType::SomeOf(GroupSomeOf))
    } else {
        None
    }
}

impl WplGroupType {
    /// Reads a group keyword (`FromStr`).
    pub fn from_text(s: &str) -> (r: Result<WplGroupType, ()>)
        ensures
            match group_of_word(s@) {
                Some(t) => r == Ok::<WplGroupType, ()>(t),
                None => r is Err,
            },
    {
        let cs = chars_of(s);
        let opt = ['o', 'p', 't'];
        let order = ['o', 'r', 'd', 'e', 'r'];
        let seq_w = ['s', 'e', 'q'];
        let alt = ['a', 'l', 't'];
        let some_of = ['s', 'o', 'm', 'e', '_', 'o', 'f'];
        assert(opt@ =~= seq!['o', 'p', 't']);
        assert(order@ =~= seq!['o', 'r', 'd', 'e', 'r']);
        assert(seq_w@ =~= seq!['s', 'e', 'q']);
        assert(alt@ =~= seq!['a', 'l', 't']);
        assert(some_of@ =~= seq!['s', 'o', 'm', 'e', '_', 'o', 'f']);
        if crate::sep::chars_equal(&cs, &opt) {
            Ok(WplGroupType::Opt(GroupOpt))
        } else if crate::sep::chars_equal(&cs, &order) || crate::sep::chars_equal(&cs, &seq_w) {
            Ok(WplGroupType::Sequence(GroupSeq))
        } else if crate::sep::chars_equal(&cs, &alt) {
            Ok(WplGroupType::Alt(GroupAlt))
        } else if crate::sep::chars_equal(&cs, &some_of) {
            Ok(WplGroupType::SomeOf(GroupSomeOf))
        } else {
            Err(())
        }
    }

    /// The keyword of the kind (`Display`): `opt`, `seq`, `alt`, `some_of`.
    pub fn fmt_string(&self) -> (r: String)
        ensures
            r@ == group_word(*self),
    {
        let w: &[char] = match self {
            WplGroupType::Opt(_) => &['o', 'p', 't'],
            WplGroupType::Sequence(_) => &['s', 'e', 'q'],
            WplGroupType::Alt(_) => &['a', 'l', 't'],
            WplGroupType::SomeOf(_) => &['s', 'o', 'm', 'e', '_', 'o', 'f'],
        };
        proof {
            assert(w@ =~= group_word(*self));
        }
        string_of_chars(w)
    }
}

/// Reading the keyword a kind is shown with gives the kind back: `from_text`
/// of what `fmt_string` writes is that kind.
pub proof fn law_group_word_round_trip(t: WplGroupType)
    ensures
        group_of_word(group_word(t)) == Some(t),
{
    match t {
        WplGroupType::Opt(_) => {},
        WplGroupType::Sequence(_) => {
            assert(seq!['s', 'e', 'q'] != seq!['o', 'p', 't']);
            assert(seq!['s', 'e', 'q'][0] != seq!['o', 'p', 't'][0]);
        },
        WplGroupType::Alt(_) => {
            assert(seq!['a', 'l', 't'][0] != seq!['o', 'p', 't'][0]);
            assert(seq!['a', 'l', 't'][0] != seq!['o', 'r', 'd', 'e', 'r'][0]);
            assert(seq!['a', 'l', 't'][0] != seq!['s', 'e', 'q'][0]);
        },
        WplGroupType::SomeOf(_) => {
            let w = seq!['s', 'o', 'm', 'e', '_', 'o', 'f'];
            assert(w.len() != 3);
            assert(w.len() != 5);
        },
    }
}

/// `order` reads as the sequence kind, like `seq`; every word other than `opt`,
/// `order`, `seq`, `alt` and `some_of` reads as no kind.
pub proof fn law_group_words(w: Seq<char>)
    ensures
        group_of_word(seq!['o', 'r', 'd', 'e', 'r']) == Some(WplGroupType::Sequence(GroupSeq)),
        w != seq!['o', 'p', 't'] && w != seq!['o', 'r', 'd', 'e', 'r'] && w != seq!['s', 'e', 'q']
            && w != seq!['a', 'l', 't'] && w != seq!['s', 'o', 'm', 'e', '_', 'o', 'f']
            ==> group_of_word(w) is None,
{
    assert(seq!['o', 'r', 'd', 'e', 'r'] != seq!['o', 'p', 't']);
}

} // verus!

//! The checker that decides which check steps are reported and whether a
//! failed check ends the run.
use vstd::prelude::*;
use crate::text::chars_of;

verus! {

/// What to do when a check fails.
#[derive(Clone, Copy, Debug, PartialEq, Eq)]
pub enum FailureAction {
    Continue,
    Break,
    Panic,
}

impl Default for FailureAction {
    fn default() -> (r: FailureAction)
        ensures
            r == FailureAction::Continue,
    {
        FailureAction::Continue
    }
}

/// The word for an action, as read by `FailureAction::from_text`.
pub open spec fn action_word(a: FailureAction) -> Seq<char> {
    match a {
        FailureAction::Continue => seq!['c', 'o', 'n', 't', 'i', 'n', 'u', 'e'],
        FailureAction::Break => seq!['b', 'r', 'e', 'a', 'k'],
        FailureAction::Panic => seq!['p', 'a', 'n', 'i', 'c'],
    }
}

impl FailureAction {
    /// `break` and `panic` name their action; any other text means `continue`.
    pub fn from_text(value: &str) -> (r: FailureAction)
        ensures
            r == if value@ == action_word(FailureAction::Break) {
                FailureAction::Break
            } else if value@ == action_word(FailureAction::Panic) {
                FailureAction::Panic
            } else {
                FailureAction::Continue
            },
    {
        let cs = chars_of(value);
        let brk = ['b', 'r', 'e', 'a', 'k'];
        let pnc = ['p', 'a', 'n', 'i', 'c'];
        assert(brk@ =~= action_word(FailureAction::Break));
        assert(pnc@ =~= action_word(FailureAction::Panic));
        if crate::sep::chars_equal(&cs, &brk) {
            FailureAction::Break
        } else if crate::sep::chars_equal(&cs, &pnc) {
            FailureAction::Panic
        } else {
            FailureAction::Continue
        }
    }

    /// The action's word: `continue`, `break` or `panic`.
    pub fn to_text(&self) -> (r: String)
        ensures
            r@ == action_word(*self),
    {
        let w: &[char] = match self {
            FailureAction::Continue => &['c', 'o', 'n', 't', 'i', 'n', 'u', 'e'],
            FailureAction::Break => &['b', 'r', 'e', 'a', 'k'],
            FailureAction::Panic => &['p', 'a', 'n', 'i', 'c'],
        };
        proof {
            assert(w@ =~= action_word(*self));
        }
        crate::text::string_of_chars(w)
    }
}

/// Reading the word of an action gives the action back.
pub proof fn law_failure_action_round_trip(a: FailureAction)
    ensures
        (if action_word(a) == action_word(FailureAction::Break) {
            FailureAction::Break
        } else if action_word(a) == action_word(FailureAction::Panic) {
            FailureAction::Panic
        } else {
            FailureAction::Continue
        }) == a,
{
    match a {
        FailureAction::Continue => {
            assert(action_word(a)[0] != action_word(FailureAction::Break)[0]);
            assert(action_word(a)[0] != action_word(FailureAction::Panic)[0]);
        },
        FailureAction::Break => {},
        FailureAction::Panic => {
            assert(action_word(a)[0] != action_word(FailureAction::Break)[0]);
        },
    }
}

/// A failed check, with its message.
#[derive(Debug, PartialEq)]
pub struct CheckFail(pub String);

impl CheckFail {
    /// The failure as reported: `CheckFail! (message)`.
    pub fn to_text(&self) -> (r: String)
        ensures
            r@ == "CheckFail! ("@ + self.0@ + ")"@,
    {
        let mut s = String::new();
        s.append("CheckFail! (");
        s.append(self.0.as_str());
        s.append(")");
        s
    }
}

/// Which of the five notice levels are reported, and whether a failure ends
/// the run.
#[derive(Clone, Copy, Debug)]
pub struct Checker {
    err_end: bool,
    level_ctrl: [bool; 5],
}

impl Checker {
    /// Whether notices of `level` are reported.
    pub closed spec fn notices(&self, level: int) -> bool {
        self.level_ctrl@[level]
    }

    /// Whether a failed check ends the run.
    pub closed spec fn ends_on_failure(&self) -> bool {
        self.err_end
    }

    /// Levels below `level` (at most five) are reported.
    pub fn new(err_end: bool, level: usize) -> (r: Checker)
        ensures
            r.ends_on_failure() == err_end,
            forall|i: int| 0 <= i < 5 ==> (r.notices(i) <==> i < level),
    {
        let safe_level = if level > 5 {
            5
        } else {
            level
        };
        Checker {
            err_end,
            level_ctrl: [0 < safe_level, 1 < safe_level, 2 < safe_level, 3 < safe_level, 4
                < safe_level],
        }
    }

    pub fn need_notice(&self, level: usize) -> (r: bool)
        requires
            level < 5,
        ensures
            r == self.notices(level as int),
    {
        self.level_ctrl[level]
    }

    pub fn will_end(&self) -> (r: bool)
        ensures
            r == self.ends_on_failure(),
    {
        self.err_end
    }

    /// A failed check: an error carrying the message when failures end the
    /// run, otherwise nothing.
    pub fn fail_action(&self, message: String) -> (r: Result<(), CheckFail>)
        ensures
            self.ends_on_failure() ==> (r matches Err(CheckFail(m)) && m@ == message@),
            !self.ends_on_failure() ==> r is Ok,
    {
        if self.err_end {
            return Err(CheckFail(message));
        }
        Ok(())
    }
}

impl Default for Checker {
    fn default() -> (r: Checker)
        ensures
            !r.ends_on_failure(),
            forall|i: int| 0 <= i < 5 ==> !r.notices(i),
    {
        Checker::new(false, 0)
    }
}

} // verus!

//! Run settings of the WPL engine.
use vstd::prelude::*;

verus! {

/// The check level and whether to stop: a stop level wins over a continue
/// level; without either the level is 0.
pub fn check_level_or_stop(check_continue: Option<usize>, check_stop: Option<usize>) -> (r: (
    usize,
    bool,
))
    ensures
        r == match check_stop {
            Some(s) => (s, true),
            None => (
                match check_continue {
                    Some(c) => c,
                    None => 0,
                },
                false,
            ),
        },
{
    let lev = match check_stop {
        Some(s) => s,
        None => match check_continue {
            Some(c) => c,
            None => 0,
        },
    };
    if check_stop.is_some() {
        return (lev, true);
    }
    (lev, false)
}

/// How patterns are matched.
#[derive(Clone, Copy, Debug, PartialEq, Eq)]
pub enum PattenMode {
    Automated,
    Precise,
}

/// Engine settings: the matching mode and whether a record must be consumed
/// completely.
#[derive(Clone, Copy, Debug, PartialEq, Eq)]
pub struct WplSetting {
    pub mode: PattenMode,
    pub need_complete: bool,
}

impl Default for WplSetting {
    fn default() -> (r: WplSetting)
        ensures
            r == (WplSetting { mode: PattenMode::Automated, need_complete: false }),
    {
        WplSetting { mode: PattenMode::Automated, need_complete: false }
    }
}

impl WplSetting {
    pub fn new(mode: PattenMode, need_complete: bool) -> (r: WplSetting)
        ensures
            r == (WplSetting { mode, need_complete }),
    {
        WplSetting { mode, need_complete }
    }
}

} // verus!

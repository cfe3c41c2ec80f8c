use vstd::prelude::*;

use crate::jinhillah::{JinHillahHpMatchResult, MAX_PIXELS};

verus! {

/// Skills whose buff icon starts a timer.
#[derive(Clone, Copy, PartialEq, Eq, Structural, Debug)]
pub enum VSkillKind {
    FatalStrike,
}

impl VSkillKind {
    /// How long the skill lasts, in seconds.
    pub fn duration_secs(&self) -> (d: u64)
        ensures
            d == 30,
    {
        match self {
            VSkillKind::FatalStrike => 30,
        }
    }
}

/// Time left of a timer started at `last_match` that runs for `duration`, at `now`;
/// zero once it has run out.
pub fn remaining_time(last_match: Option<u64>, duration: u64, now: u64) -> (r: Option<u64>)
    requires
        last_match matches Some(l) ==> l + duration <= u64::MAX,
    ensures
        match last_match {
            None => r is None,
            Some(l) => r == Some(
                (if l + duration > now {
                    l + duration - now
                } else {
                    0
                }) as u64,
            ),
        },
{
    match last_match {
        None => None,
        Some(l) => {
            let end = l + duration;
            Some(
                if end > now {
                    end - now
                } else {
                    0
                },
            )
        },
    }
}

/// Jin Hillah's health left, in units of `1 / (4 * MAX_PIXELS)`: a quarter for each
/// phase still to come, and the bar's share of the current quarter.
pub open spec fn total_hp_units(hp: JinHillahHpMatchResult) -> int {
    let phase: int = if hp.level == 0 {
        1
    } else {
        hp.level as int
    };
    (4 - phase) * MAX_PIXELS + hp.remaining_pixels
}

/// Seconds of the Jin Hillah timer: the hard or normal duration for the health left;
/// below 30% the shortest, below 60% the middle one, else the longest. An unread bar
/// counts as full health.
pub open spec fn jinhillah_duration_spec(normal_mode: bool, hp: Option<JinHillahHpMatchResult>) -> u64 {
    let durations: (u64, u64, u64) = if normal_mode {
        (180, 155, 120)
    } else {
        (150, 125, 100)
    };
    match hp {
        None => durations.0,
        Some(x) => if 10 * total_hp_units(x) < 3 * 4 * MAX_PIXELS {
            durations.2
        } else if 10 * total_hp_units(x) < 6 * 4 * MAX_PIXELS {
            durations.1
        } else {
            durations.0
        },
    }
}

pub fn duration_realtime(normal_mode: bool, hp: Option<JinHillahHpMatchResult>) -> (d: u64)
    requires
        hp matches Some(x) ==> x.level <= 4,
    ensures
        d == jinhillah_duration_spec(normal_mode, hp),
{
    let durations: (u64, u64, u64) = if normal_mode {
        (180, 155, 120)
    } else {
        (150, 125, 100)
    };
    match hp {
        None => durations.0,
        Some(x) => {
            let phase = x.phase() as u64;
            assert(MAX_PIXELS == 757);
            assert(1 <= phase <= 4);
            let left: u64 = 4 - phase;
            assert(left * 757 <= 3 * 757);
            let units: u64 = left * 757 + x.remaining_pixels as u64;
            let scaled: u64 = 10 * units;
            let full: u64 = 4 * 757;
            if scaled < 3 * full {
                durations.2
            } else if scaled < 6 * full {
                durations.1
            } else {
                durations.0
            }
        },
    }
}

/// Whether a reap seen at `received` starts a new Jin Hillah cycle: it does where
/// none was captured yet, or where the last one, at `capture_time`, is at least
/// `duration` old.
pub fn starts_new_cycle(received: Option<u64>, capture_time: Option<u64>, duration: u64) -> (b:
    bool)
    ensures
        b == match (received, capture_time) {
            (Some(x), None) => true,
            (Some(x), Some(y)) => x >= y + duration,
            _ => false,
        },
{
    match (received, capture_time) {
        (Some(x), None) => true,
        (Some(x), Some(y)) => x as u128 >= y as u128 + duration as u128,
        _ => false,
    }
}

} // verus!

//! Manual silence windows offered to users.

use vstd::prelude::*;

use crate::watcher::SilencedUntil;

verus! {

/// The lengths a user can silence their watchers for.
#[derive(Clone, Copy, Debug, PartialEq, Eq, Structural)]
pub enum SilenceForOption {
    Hour,
    ThreeHours,
    Day,
    Week,
}

/// The longest window, in milliseconds.
pub const LONGEST_SILENCE_MILLIS: u64 = 604_800_000;

impl SilenceForOption {
    /// The window's length in seconds.
    pub open spec fn spec_seconds(self) -> u64 {
        match self {
            SilenceForOption::Hour => 3600,
            SilenceForOption::ThreeHours => 10800,
            SilenceForOption::Day => 86400,
            SilenceForOption::Week => 604800,
        }
    }

    /// The window's length in seconds.
    pub fn seconds(&self) -> (r: u64)
        ensures
            r == self.spec_seconds(),
    {
        match self {
            SilenceForOption::Hour => 3600,
            SilenceForOption::ThreeHours => 10800,
            SilenceForOption::Day => 86400,
            SilenceForOption::Week => 604800,
        }
    }

    /// The window's length in milliseconds.
    pub fn millis(&self) -> (r: u64)
        ensures
            r == self.spec_seconds() * 1000,
            r <= LONGEST_SILENCE_MILLIS,
    {
        self.seconds() * 1000
    }
}

/// The end of a manual silence asked for at `now`: the chosen window from
/// `now`, or indefinitely when no window is chosen.
pub open spec fn silence_end(silence_for: Option<SilenceForOption>, now: u64) -> SilencedUntil {
    match silence_for {
        Some(o) => SilencedUntil::At((now + o.spec_seconds() * 1000) as u64),
        None => SilencedUntil::Indefinitely,
    }
}

/// Computes `silence_end`.
pub fn silence_target(silence_for: Option<SilenceForOption>, now: u64) -> (r: SilencedUntil)
    requires
        silence_for is Some ==> now <= u64::MAX - LONGEST_SILENCE_MILLIS,
    ensures
        r == silence_end(silence_for, now),
{
    match silence_for {
        Some(o) => SilencedUntil::At(now + o.millis()),
        None => SilencedUntil::Indefinitely,
    }
}

} // verus!

//! Watchers: "notify me in channel C when user U starts activity A in guild G",
//! with the bookkeeping that decides whether an activity start may fire.

use vstd::prelude::*;

use crate::{DiscordId, Id};

verus! {

/// How long a watcher stays silenced after it fired, in milliseconds. The
/// platform tends to report one activity start several times in a row.
pub const DEBOUNCE_MILLIS: u64 = 300_000;

/// The end of a silence window.
#[derive(Clone, Copy, Debug, PartialEq, Eq, Structural)]
pub enum SilencedUntil {
    /// Silenced while `now` is strictly before this instant (milliseconds since the epoch).
    At(u64),
    /// Silenced until explicitly unsilenced.
    Indefinitely,
}

/// A registered trigger. Timestamps are milliseconds since the Unix epoch.
#[derive(Debug)]
pub struct ActivityWatcher {
    pub id: Id,
    pub guild_id: DiscordId,
    pub user_id: DiscordId,
    pub activity_name: String,
    pub channel_id: DiscordId,
    pub last_triggered: Option<u64>,
    pub silenced_until: Option<SilencedUntil>,
}

/// What the eligibility rule says of one activity start for one watcher.
#[derive(Clone, Copy, Debug, PartialEq, Eq, Structural)]
pub enum Eligibility {
    /// The watcher already fired at or after the activity started.
    AlreadyTriggered,
    /// The activity start is new, but the watcher is silenced.
    Silenced,
    /// The watcher may fire.
    Eligible,
}

impl SilencedUntil {
    /// Whether a silence ending at `self` still holds at `now`.
    pub open spec fn holds_at(self, now: u64) -> bool {
        match self {
            SilencedUntil::At(t) => now < t,
            SilencedUntil::Indefinitely => true,
        }
    }
}

impl ActivityWatcher {
    /// The watcher is silenced at `now`.
    pub open spec fn silenced_at(&self, now: u64) -> bool {
        match self.silenced_until {
            Some(s) => s.holds_at(now),
            None => false,
        }
    }

    /// The watcher fired at or after `started_at`.
    pub open spec fn triggered_since(&self, started_at: u64) -> bool {
        match self.last_triggered {
            Some(t) => t >= started_at,
            None => false,
        }
    }

    /// The watcher is the one for this (guild, user, activity, channel).
    pub open spec fn has_key(&self, guild_id: DiscordId, user_id: DiscordId, activity_name: Seq<char>, channel_id: DiscordId) -> bool {
        &&& self.guild_id == guild_id
        &&& self.user_id == user_id
        &&& self.activity_name@ == activity_name
        &&& self.channel_id == channel_id
    }

    /// Two watchers share their unique key.
    pub open spec fn same_key(&self, other: ActivityWatcher) -> bool {
        self.has_key(other.guild_id, other.user_id, other.activity_name@, other.channel_id)
    }

    /// This watcher with `last_triggered` set.
    pub open spec fn with_last_triggered(self, at: u64) -> ActivityWatcher {
        ActivityWatcher { last_triggered: Some(at), ..self }
    }

    /// This watcher with `silenced_until` set.
    pub open spec fn with_silence(self, until: Option<SilencedUntil>) -> ActivityWatcher {
        ActivityWatcher { silenced_until: until, ..self }
    }

    /// Whether the watcher is silenced at `now`.
    pub fn is_silenced(&self, now: u64) -> (r: bool)
        ensures
            r == self.silenced_at(now),
    {
        match self.silenced_until {
            Some(SilencedUntil::At(t)) => now < t,
            Some(SilencedUntil::Indefinitely) => true,
            None => false,
        }
    }

    /// Whether the watcher fired at or after `started_at`.
    pub fn was_triggered_since(&self, started_at: u64) -> (r: bool)
        ensures
            r == self.triggered_since(started_at),
    {
        match self.last_triggered {
            Some(t) => t >= started_at,
            None => false,
        }
    }

    /// A copy of this watcher.
    pub fn duplicate(&self) -> (r: ActivityWatcher)
        ensures
            r == *self,
    {
        ActivityWatcher {
            id: self.id,
            guild_id: self.guild_id,
            user_id: self.user_id,
            activity_name: self.activity_name.clone(),
            channel_id: self.channel_id,
            last_triggered: self.last_triggered,
            silenced_until: self.silenced_until,
        }
    }
}

/// The eligibility rule: an activity start that the watcher already fired for is
/// skipped; otherwise a silenced watcher is skipped; otherwise it may fire.
pub open spec fn eligibility_of(w: ActivityWatcher, started_at: u64, now: u64) -> Eligibility {
    if w.triggered_since(started_at) {
        Eligibility::AlreadyTriggered
    } else if w.silenced_at(now) {
        Eligibility::Silenced
    } else {
        Eligibility::Eligible
    }
}

/// Applies the eligibility rule to an activity that started at `started_at`,
/// seen at `now`.
pub fn check_eligibility(w: &ActivityWatcher, started_at: u64, now: u64) -> (r: Eligibility)
    ensures
        r == eligibility_of(*w, started_at, now),
{
    if w.was_triggered_since(started_at) {
        Eligibility::AlreadyTriggered
    } else if w.is_silenced(now) {
        Eligibility::Silenced
    } else {
        Eligibility::Eligible
    }
}

/// The trigger recorder's conditional write succeeds: nothing is recorded
/// yet, or the recorded trigger is before `now`.
pub open spec fn may_record(w: ActivityWatcher, now: u64) -> bool {
    match w.last_triggered {
        Some(t) => t < now,
        None => true,
    }
}

/// A dispatch for an activity that started at `started_at` may be recorded at
/// `now`: the watcher has not fired since the start, and the recorder's
/// write succeeds.
pub open spec fn may_record_dispatch(w: ActivityWatcher, started_at: u64, now: u64) -> bool {
    !w.triggered_since(started_at) && may_record(w, now)
}

/// The watcher after a successful trigger at `now`: fired at `now` and
/// silenced for the debounce window.
pub open spec fn fired_at(w: ActivityWatcher, now: u64) -> ActivityWatcher {
    w.with_last_triggered(now).with_silence(Some(SilencedUntil::At((now + DEBOUNCE_MILLIS) as u64)))
}

} // verus!

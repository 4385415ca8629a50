//! From activity-change events to dispatch decisions, and the bookkeeping
//! after a dispatch. Sending is left to the caller: it plans, sends each
//! planned message, then records the dispatch.

use vstd::prelude::*;
use vstd::string::StrSliceExecFns;

use crate::message::{messages_of, pick, ActivityMessage};
use crate::state::State;
use crate::tables::{has_id, lemma_filter_step};
use crate::watcher::{
    check_eligibility, eligibility_of, fired_at, may_record_dispatch, ActivityWatcher, Eligibility, SilencedUntil, DEBOUNCE_MILLIS,
};
use crate::watcher_store::{for_activity, lemma_position_of, lemma_watcher_ids_unique, position_of};
use crate::{DiscordId, Id};

verus! {

broadcast use vstd::seq_lib::group_filter_ensures;

/// An activity as the platform reports it in a presence update.
#[derive(Debug)]
pub struct PresenceActivity {
    pub name: String,
    /// When the activity started, in milliseconds since the epoch, if reported.
    pub started_at: Option<u64>,
}

/// One activity start handed to the core.
#[derive(Debug)]
pub struct ActivityEvent {
    pub user_id: DiscordId,
    pub guild_id: DiscordId,
    pub activity_name: String,
    /// When the activity started; 0 when the platform did not say.
    pub started_at: u64,
}

/// What to do for one watcher.
#[derive(Debug)]
pub enum Decision {
    /// The watcher already fired for this activity start.
    AlreadyTriggered,
    /// The watcher is silenced; nothing is sent and nothing recorded.
    Silenced,
    /// The watcher owns no message; nothing is sent.
    NoMessages,
    /// Send this message in the watcher's channel, then record the dispatch.
    Send(ActivityMessage),
}

/// A decision for one resolved watcher.
#[derive(Debug)]
pub struct PlannedDispatch {
    pub watcher: ActivityWatcher,
    pub decision: Decision,
}

/// A white-space character (the Unicode `White_Space` property).
pub open spec fn is_blank_char(c: char) -> bool {
    let n = c as u32;
    (0x9 <= n && n <= 0xd) || n == 0x20 || n == 0x85 || n == 0xa0 || n == 0x1680 || (0x2000 <= n && n <= 0x200a)
        || n == 0x2028 || n == 0x2029 || n == 0x202f || n == 0x205f || n == 0x3000
}

/// Whether `c` is a white-space character.
pub fn blank_char(c: char) -> (r: bool)
    ensures
        r == is_blank_char(c),
{
    let n = c as u32;
    (0x9 <= n && n <= 0xd) || n == 0x20 || n == 0x85 || n == 0xa0 || n == 0x1680 || (0x2000 <= n && n <= 0x200a)
        || n == 0x2028 || n == 0x2029 || n == 0x202f || n == 0x205f || n == 0x3000
}

/// The name has a character that is not white space.
pub open spec fn has_text(name: Seq<char>) -> bool {
    exists|i: int| 0 <= i < name.len() && !is_blank_char(name[i])
}

/// Whether the name has a character that is not white space.
pub fn is_named(name: &str) -> (r: bool)
    ensures
        r == has_text(name@),
{
    let n = name.unicode_len();
    let mut i: usize = 0;
    while i < n
        invariant
            n == name@.len(),
            i <= n,
            forall|j: int| 0 <= j < i ==> is_blank_char(#[trigger] name@[j]),
        decreases n - i,
    {
        if !blank_char(name.get_char(i)) {
            return true;
        }
        i = i + 1;
    }
    false
}

/// Activities with a name; empty and blank ones are dropped.
pub open spec fn named() -> spec_fn(PresenceActivity) -> bool {
    |a: PresenceActivity| has_text(a.name@)
}

/// The event for one activity of a presence update.
pub open spec fn event_of(user_id: DiscordId, guild_id: DiscordId, a: PresenceActivity) -> ActivityEvent {
    ActivityEvent {
        user_id,
        guild_id,
        activity_name: a.name,
        started_at: match a.started_at {
            Some(t) => t,
            None => 0,
        },
    }
}

/// The decision for watcher `w` on an activity that started at `started_at`,
/// seen at `now`, with `ms` the stored messages.
pub open spec fn decide(w: ActivityWatcher, ms: Seq<ActivityMessage>, started_at: u64, now: u64, choice: u64) -> Decision {
    match eligibility_of(w, started_at, now) {
        Eligibility::AlreadyTriggered => Decision::AlreadyTriggered,
        Eligibility::Silenced => Decision::Silenced,
        Eligibility::Eligible => match pick(messages_of(ms, w.id), choice) {
            Some(m) => Decision::Send(m),
            None => Decision::NoMessages,
        },
    }
}

/// A dispatch recorded on the stored watchers: the rows afterwards, and
/// whether it was recorded.
pub open spec fn dispatch_write(ws: Seq<ActivityWatcher>, id: Id, started_at: u64, now: u64) -> (Seq<ActivityWatcher>, bool) {
    let k = position_of(ws, id);
    if has_id(ws, id) && may_record_dispatch(ws[k], started_at, now) {
        (ws.update(k, fired_at(ws[k], now)), true)
    } else {
        (ws, false)
    }
}

/// The events of a presence update: one per named activity, in order.
pub fn activity_events(user_id: DiscordId, guild_id: DiscordId, activities: &Vec<PresenceActivity>) -> (r: Vec<ActivityEvent>)
    ensures
        r@ == activities@.filter(named()).map_values(|a: PresenceActivity| event_of(user_id, guild_id, a)),
{
    let ghost as_ = activities@;
    let mut r: Vec<ActivityEvent> = Vec::new();
    let mut i: usize = 0;
    while i < activities.len()
        invariant
            as_ == activities@,
            i <= as_.len(),
            r@ == as_.subrange(0, i as int).filter(named()).map_values(|a: PresenceActivity| event_of(user_id, guild_id, a)),
        decreases as_.len() - i,
    {
        proof { lemma_filter_step(as_, i as int, named()); }
        let a = &activities[i];
        if is_named(a.name.as_str()) {
            let started_at = match a.started_at {
                Some(t) => t,
                None => 0,
            };
            let e = ActivityEvent { user_id, guild_id, activity_name: a.name.clone(), started_at };
            proof {
                assert(as_.subrange(0, i + 1).filter(named()).map_values(|a: PresenceActivity| event_of(user_id, guild_id, a))
                    =~= r@.push(e));
            }
            r.push(e);
        } else {
            proof {
                assert(as_.subrange(0, i + 1).filter(named()).map_values(|a: PresenceActivity| event_of(user_id, guild_id, a))
                    =~= r@);
            }
        }
        i = i + 1;
    }
    assert(as_.subrange(0, as_.len() as int) =~= as_);
    r
}

impl State {
    /// Resolves the watchers of the event and decides, for each, whether it
    /// fires and with which message. Changes nothing.
    pub fn plan_dispatches(&self, event: &ActivityEvent, now: u64, choice: u64) -> (r: Vec<PlannedDispatch>)
        ensures
            r@.len() == self.tables.watchers@.filter(for_activity(event.guild_id, event.user_id, event.activity_name@)).len(),
            forall|i: int| 0 <= i < r@.len() ==> {
                let w = #[trigger] self.tables.watchers@.filter(for_activity(event.guild_id, event.user_id, event.activity_name@))[i];
                &&& r@[i].watcher == w
                &&& r@[i].decision == decide(w, self.tables.messages@, event.started_at, now, choice)
            },
    {
        let watchers = self.get_watchers(event.user_id, event.guild_id, event.activity_name.as_str());
        let mut r: Vec<PlannedDispatch> = Vec::new();
        let mut i: usize = 0;
        while i < watchers.len()
            invariant
                watchers@ == self.tables.watchers@.filter(for_activity(event.guild_id, event.user_id, event.activity_name@)),
                i <= watchers@.len(),
                r@.len() == i,
                forall|j: int| 0 <= j < i ==> {
                    &&& (#[trigger] r@[j]).watcher == watchers@[j]
                    &&& r@[j].decision == decide(watchers@[j], self.tables.messages@, event.started_at, now, choice)
                },
            decreases watchers@.len() - i,
        {
            let w = &watchers[i];
            let decision = match check_eligibility(w, event.started_at, now) {
                Eligibility::AlreadyTriggered => Decision::AlreadyTriggered,
                Eligibility::Silenced => Decision::Silenced,
                Eligibility::Eligible => match self.query_random_message_for_watcher(w, choice) {
                    Some(m) => Decision::Send(m),
                    None => Decision::NoMessages,
                },
            };
            r.push(PlannedDispatch { watcher: w.duplicate(), decision });
            i = i + 1;
        }
        r
    }

    /// Records a dispatch for the watcher at `now`, in one step: unless the
    /// stored watcher already fired at or after the activity start, the
    /// trigger recorder's conditional write and, when it succeeds, the
    /// automatic silence for the debounce window. Otherwise (the dispatch
    /// lost a race, or the watcher is gone) nothing changes and `false` is
    /// returned.
    pub fn record_dispatch(&mut self, activity_watcher: &mut ActivityWatcher, started_at: u64, now: u64) -> (r: bool)
        requires
            old(self).tables.wf(),
            now <= u64::MAX - DEBOUNCE_MILLIS,
        ensures
            final(self).tables.wf(),
            (final(self).tables.watchers@, r) == dispatch_write(old(self).tables.watchers@, old(activity_watcher).id, started_at, now),
            r ==> *final(activity_watcher) == final(self).tables.watchers@[position_of(old(self).tables.watchers@, old(activity_watcher).id)],
            !r ==> *final(self) == *old(self) && *final(activity_watcher) == *old(activity_watcher),
            final(self).tables.messages@ == old(self).tables.messages@,
            final(self).tables.recorded@ == old(self).tables.recorded@,
            final(self).tables.next_watcher_id == old(self).tables.next_watcher_id,
            final(self).tables.next_message_id == old(self).tables.next_message_id,
    {
        let ghost ws = self.tables.watchers@;
        let ghost id = activity_watcher.id;
        match self.tables.find_watcher(activity_watcher.id) {
            None => {
                return false;
            },
            Some(k) => {
                proof { lemma_position_of(ws, k as int); }
                if self.tables.watchers[k].was_triggered_since(started_at) {
                    return false;
                }
            },
        }
        if !self.update_last_triggered_for_watcher(activity_watcher, now) {
            return false;
        }
        let ghost mid = self.tables;
        proof {
            let k = position_of(ws, id);
            assert(mid.watchers@[k].id == id);
        }
        let kept = self.silence_watcher_until(activity_watcher, SilencedUntil::At(now + DEBOUNCE_MILLIS));
        proof {
            let k = position_of(ws, id);
            lemma_watcher_ids_unique(&mid);
            let k2 = choose|k2: int| 0 <= k2 < mid.watchers@.len() && mid.watchers@[k2].id == id
                && *activity_watcher == mid.watchers@[k2].with_silence(Some(SilencedUntil::At((now + DEBOUNCE_MILLIS) as u64)))
                && self.tables.watchers@ == mid.watchers@.update(k2, *activity_watcher);
            assert(k == k2);
            assert(*activity_watcher == fired_at(ws[k], now));
            assert(self.tables.watchers@ =~= ws.update(k, fired_at(ws[k], now)));
        }
        kept
    }
}

/// The activity names of the watchers, only those silenced at `now` (or only
/// those not silenced) when `silenced` says so.
pub fn activity_names(watchers: &Vec<ActivityWatcher>, silenced: Option<bool>, now: u64) -> (r: Vec<String>)
    ensures
        r@ == watchers@.filter(|w: ActivityWatcher| match silenced {
            Some(s) => w.silenced_at(now) == s,
            None => true,
        }).map_values(|w: ActivityWatcher| w.activity_name),
{
    let ghost ws = watchers@;
    let ghost p = |w: ActivityWatcher| match silenced {
        Some(s) => w.silenced_at(now) == s,
        None => true,
    };
    let mut r: Vec<String> = Vec::new();
    let mut i: usize = 0;
    while i < watchers.len()
        invariant
            ws == watchers@,
            p == (|w: ActivityWatcher| match silenced {
                Some(s) => w.silenced_at(now) == s,
                None => true,
            }),
            i <= ws.len(),
            r@ == ws.subrange(0, i as int).filter(p).map_values(|w: ActivityWatcher| w.activity_name),
        decreases ws.len() - i,
    {
        proof { lemma_filter_step(ws, i as int, p); }
        let w = &watchers[i];
        let keep = match silenced {
            Some(s) => w.is_silenced(now) == s,
            None => true,
        };
        if keep {
            let name = w.activity_name.clone();
            proof {
                assert(ws.subrange(0, i + 1).filter(p).map_values(|w: ActivityWatcher| w.activity_name) =~= r@.push(name));
            }
            r.push(name);
        } else {
            proof {
                assert(ws.subrange(0, i + 1).filter(p).map_values(|w: ActivityWatcher| w.activity_name) =~= r@);
            }
        }
        i = i + 1;
    }
    assert(ws.subrange(0, ws.len() as int) =~= ws);
    r
}

} // verus!

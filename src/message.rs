//! Candidate notification texts, each owned by one watcher.

use vstd::prelude::*;

use crate::tables::{
    distinct_by, has_id, lemma_distinct_push, lemma_distinct_remove, lemma_filter_distinct, lemma_filter_step, StoreError, Tables,
};
use crate::watcher::ActivityWatcher;
use crate::{DiscordId, Id};

verus! {

broadcast use vstd::seq_lib::group_filter_ensures;

/// One candidate notification text of a watcher.
#[derive(Debug)]
pub struct ActivityMessage {
    pub id: Id,
    pub activity_watcher: Id,
    pub message: String,
}

impl ActivityMessage {
    /// A copy of this message.
    pub fn duplicate(&self) -> (r: ActivityMessage)
        ensures
            r == *self,
    {
        ActivityMessage { id: self.id, activity_watcher: self.activity_watcher, message: self.message.clone() }
    }
}

/// The message belongs to the watcher with this id.
pub open spec fn belongs_to(watcher_id: Id) -> spec_fn(ActivityMessage) -> bool {
    |m: ActivityMessage| m.activity_watcher == watcher_id
}

/// The message belongs to another watcher than this one.
pub open spec fn belongs_elsewhere(watcher_id: Id) -> spec_fn(ActivityMessage) -> bool {
    |m: ActivityMessage| m.activity_watcher != watcher_id
}

/// The messages of one watcher, in store order.
pub open spec fn messages_of(ms: Seq<ActivityMessage>, watcher_id: Id) -> Seq<ActivityMessage> {
    ms.filter(belongs_to(watcher_id))
}

/// The message's watcher is one of `user_id` that posts in `channel_id`.
pub open spec fn owned_by(ws: Seq<ActivityWatcher>, m: ActivityMessage, user_id: DiscordId, channel_id: DiscordId) -> bool {
    exists|k: int|
        0 <= k < ws.len() && ws[k].id == m.activity_watcher && ws[k].user_id == user_id && ws[k].channel_id == channel_id
}

/// Messages whose watcher belongs to `user_id` in `channel_id`.
pub open spec fn owned_in(ws: Seq<ActivityWatcher>, user_id: DiscordId, channel_id: DiscordId) -> spec_fn(ActivityMessage) -> bool {
    |m: ActivityMessage| owned_by(ws, m, user_id, channel_id)
}

/// The selector: the candidate at position `choice` modulo their number.
/// Every position is hit by exactly the choices congruent to it, so a uniform
/// choice gives a uniform message.
pub open spec fn pick(candidates: Seq<ActivityMessage>, choice: u64) -> Option<ActivityMessage> {
    if candidates.len() == 0 {
        None
    } else {
        Some(candidates[choice as int % candidates.len() as int])
    }
}

impl ActivityMessage {
    /// Stores a new message for an existing watcher, under a fresh id.
    pub fn create(tables: &mut Tables, activity_watcher_id: Id, message: &str) -> (r: Result<ActivityMessage, StoreError>)
        requires
            old(tables).wf(),
        ensures
            final(tables).wf(),
            match r {
                Ok(m) => {
                    &&& has_id(old(tables).watchers@, activity_watcher_id)
                    &&& old(tables).next_message_id < u64::MAX
                    &&& m.id == old(tables).next_message_id
                    &&& m.activity_watcher == activity_watcher_id
                    &&& m.message@ == message@
                    &&& final(tables).messages@ == old(tables).messages@.push(m)
                    &&& final(tables).next_message_id == old(tables).next_message_id + 1
                    &&& final(tables).watchers@ == old(tables).watchers@
                    &&& final(tables).recorded@ == old(tables).recorded@
                    &&& final(tables).next_watcher_id == old(tables).next_watcher_id
                },
                Err(e) => {
                    &&& *final(tables) == *old(tables)
                    &&& if has_id(old(tables).watchers@, activity_watcher_id) {
                        e == StoreError::IdsExhausted && old(tables).next_message_id == u64::MAX
                    } else {
                        e == StoreError::MissingWatcher
                    }
                },
            },
    {
        if tables.find_watcher(activity_watcher_id).is_none() {
            return Err(StoreError::MissingWatcher);
        }
        if tables.next_message_id == u64::MAX {
            return Err(StoreError::IdsExhausted);
        }
        let m = ActivityMessage { id: tables.next_message_id, activity_watcher: activity_watcher_id, message: message.to_owned() };
        let r = m.duplicate();
        tables.messages.push(m);
        tables.next_message_id = tables.next_message_id + 1;
        proof {
            let ms = tables.messages@;
            lemma_distinct_push(old(tables).messages@, r, |m: ActivityMessage| m.id);
            assert forall|i: int| 0 <= i < ms.len() implies has_id(tables.watchers@, #[trigger] ms[i].activity_watcher) by {
                if i < ms.len() - 1 {
                    assert(old(tables).messages@[i] == ms[i]);
                }
            }
        }
        Ok(r)
    }

    /// The message with this id, if its watcher belongs to `user_id` in `channel_id`.
    pub fn get_if_allowed(tables: &Tables, id: Id, user_id: DiscordId, channel_id: DiscordId) -> (r: Option<ActivityMessage>)
        requires
            tables.wf(),
        ensures
            match r {
                Some(m) => tables.messages@.contains(m) && m.id == id && owned_by(tables.watchers@, m, user_id, channel_id),
                None => forall|i: int| 0 <= i < tables.messages@.len() && #[trigger] tables.messages@[i].id == id
                    ==> !owned_by(tables.watchers@, tables.messages@[i], user_id, channel_id),
            },
    {
        match find_message(tables, id) {
            Some(i) => {
                if is_owned_by(tables, &tables.messages[i], user_id, channel_id) {
                    Some(tables.messages[i].duplicate())
                } else {
                    proof { lemma_message_ids_unique(tables); }
                    None
                }
            },
            None => None,
        }
    }

    /// One message of the watcher, chosen by `choice` among all of them; none
    /// when the watcher owns no message.
    pub fn query_randomly_by_activity_watcher(tables: &Tables, activity_watcher_id: Id, choice: u64) -> (r: Option<ActivityMessage>)
        ensures
            r == pick(messages_of(tables.messages@, activity_watcher_id), choice),
    {
        let owned = Self::query_by_activity_watcher(tables, activity_watcher_id);
        if owned.len() == 0 {
            None
        } else {
            let k = (choice % (owned.len() as u64)) as usize;
            Some(owned[k].duplicate())
        }
    }

    /// All messages of one watcher, in store order.
    pub fn query_by_activity_watcher(tables: &Tables, activity_watcher_id: Id) -> (r: Vec<ActivityMessage>)
        ensures
            r@ == messages_of(tables.messages@, activity_watcher_id),
    {
        let ghost ms = tables.messages@;
        let mut r: Vec<ActivityMessage> = Vec::new();
        let mut i: usize = 0;
        while i < tables.messages.len()
            invariant
                ms == tables.messages@,
                i <= ms.len(),
                r@ == ms.subrange(0, i as int).filter(belongs_to(activity_watcher_id)),
            decreases ms.len() - i,
        {
            proof { lemma_filter_step(ms, i as int, belongs_to(activity_watcher_id)); }
            if tables.messages[i].activity_watcher == activity_watcher_id {
                r.push(tables.messages[i].duplicate());
            }
            i = i + 1;
        }
        assert(ms.subrange(0, ms.len() as int) =~= ms);
        r
    }

    /// All messages whose watcher belongs to `user_id` in `channel_id`, in store order.
    pub fn query_by_user_channel(tables: &Tables, user_id: DiscordId, channel_id: DiscordId) -> (r: Vec<ActivityMessage>)
        requires
            tables.wf(),
        ensures
            r@ == tables.messages@.filter(owned_in(tables.watchers@, user_id, channel_id)),
    {
        let ghost ms = tables.messages@;
        let ghost p = owned_in(tables.watchers@, user_id, channel_id);
        let mut r: Vec<ActivityMessage> = Vec::new();
        let mut i: usize = 0;
        while i < tables.messages.len()
            invariant
                tables.wf(),
                ms == tables.messages@,
                p == owned_in(tables.watchers@, user_id, channel_id),
                i <= ms.len(),
                r@ == ms.subrange(0, i as int).filter(p),
            decreases ms.len() - i,
        {
            proof { lemma_filter_step(ms, i as int, p); }
            if is_owned_by(tables, &tables.messages[i], user_id, channel_id) {
                r.push(tables.messages[i].duplicate());
            }
            i = i + 1;
        }
        assert(ms.subrange(0, ms.len() as int) =~= ms);
        r
    }

    /// Deletes every message of one watcher and returns them, in store order.
    pub fn delete_all_by_activity_watcher(tables: &mut Tables, activity_watcher_id: Id) -> (r: Vec<ActivityMessage>)
        requires
            old(tables).wf(),
        ensures
            final(tables).wf(),
            r@ == messages_of(old(tables).messages@, activity_watcher_id),
            final(tables).messages@ == old(tables).messages@.filter(belongs_elsewhere(activity_watcher_id)),
            final(tables).watchers@ == old(tables).watchers@,
            final(tables).recorded@ == old(tables).recorded@,
            final(tables).next_watcher_id == old(tables).next_watcher_id,
            final(tables).next_message_id == old(tables).next_message_id,
    {
        let ghost ms = tables.messages@;
        let mut removed: Vec<ActivityMessage> = Vec::new();
        let mut kept: Vec<ActivityMessage> = Vec::new();
        let mut i: usize = 0;
        while i < tables.messages.len()
            invariant
                ms == tables.messages@,
                i <= ms.len(),
                removed@ == ms.subrange(0, i as int).filter(belongs_to(activity_watcher_id)),
                kept@ == ms.subrange(0, i as int).filter(belongs_elsewhere(activity_watcher_id)),
            decreases ms.len() - i,
        {
            proof {
                lemma_filter_step(ms, i as int, belongs_to(activity_watcher_id));
                lemma_filter_step(ms, i as int, belongs_elsewhere(activity_watcher_id));
            }
            if tables.messages[i].activity_watcher == activity_watcher_id {
                removed.push(tables.messages[i].duplicate());
            } else {
                kept.push(tables.messages[i].duplicate());
            }
            i = i + 1;
        }
        assert(ms.subrange(0, ms.len() as int) =~= ms);
        tables.messages = kept;
        proof { lemma_keep_messages(*old(tables), *tables, belongs_elsewhere(activity_watcher_id)); }
        removed
    }

    /// Deletes the message with this id if its watcher belongs to `user_id` in
    /// `channel_id`, and returns it.
    pub fn delete_by_id_if_allowed(tables: &mut Tables, id: Id, user_id: DiscordId, channel_id: DiscordId) -> (r: Option<ActivityMessage>)
        requires
            old(tables).wf(),
        ensures
            final(tables).wf(),
            final(tables).watchers@ == old(tables).watchers@,
            final(tables).recorded@ == old(tables).recorded@,
            final(tables).next_watcher_id == old(tables).next_watcher_id,
            final(tables).next_message_id == old(tables).next_message_id,
            match r {
                Some(m) => exists|i: int|
                    0 <= i < old(tables).messages@.len() && old(tables).messages@[i] == m
                        && final(tables).messages@ == old(tables).messages@.remove(i)
                        && m.id == id && owned_by(old(tables).watchers@, m, user_id, channel_id),
                None => {
                    &&& *final(tables) == *old(tables)
                    &&& forall|i: int| 0 <= i < old(tables).messages@.len() && #[trigger] old(tables).messages@[i].id == id
                        ==> !owned_by(old(tables).watchers@, old(tables).messages@[i], user_id, channel_id)
                },
            },
    {
        match find_message(tables, id) {
            Some(i) => {
                if is_owned_by(tables, &tables.messages[i], user_id, channel_id) {
                    let m = tables.messages.remove(i);
                    proof {
                        let ms = old(tables).messages@;
                        let ns = tables.messages@;
                        lemma_distinct_remove(ms, i as int, |m: ActivityMessage| m.id);
                        assert forall|a: int| #![trigger ns[a]] 0 <= a < ns.len() implies ns[a].id < tables.next_message_id
                            && has_id(tables.watchers@, ns[a].activity_watcher) by {
                            let a2 = if a < i { a } else { a + 1 };
                            assert(ns[a] == ms[a2]);
                        }
                    }
                    Some(m)
                } else {
                    proof { lemma_message_ids_unique(tables); }
                    None
                }
            },
            None => None,
        }
    }
}

/// The position of the message with this id.
fn find_message(tables: &Tables, id: Id) -> (r: Option<usize>)
    ensures
        match r {
            Some(i) => i < tables.messages@.len() && tables.messages@[i as int].id == id,
            None => forall|i: int| 0 <= i < tables.messages@.len() ==> tables.messages@[i].id != id,
        },
{
    let mut i: usize = 0;
    while i < tables.messages.len()
        invariant
            i <= tables.messages@.len(),
            forall|j: int| 0 <= j < i ==> tables.messages@[j].id != id,
        decreases tables.messages@.len() - i,
    {
        if tables.messages[i].id == id {
            return Some(i);
        }
        i = i + 1;
    }
    None
}

/// Whether the message's watcher belongs to `user_id` in `channel_id`.
fn is_owned_by(tables: &Tables, m: &ActivityMessage, user_id: DiscordId, channel_id: DiscordId) -> (r: bool)
    requires
        tables.wf(),
    ensures
        r == owned_by(tables.watchers@, *m, user_id, channel_id),
{
    match tables.find_watcher(m.activity_watcher) {
        Some(k) => {
            let w = &tables.watchers[k];
            let r = w.user_id == user_id && w.channel_id == channel_id;
            proof {
                let ws = tables.watchers@;
                if !r {
                    assert forall|j: int| 0 <= j < ws.len() && ws[j].id == m.activity_watcher
                        implies !(ws[j].user_id == user_id && ws[j].channel_id == channel_id) by {
                        if j != k {
                            assert((|w: ActivityWatcher| w.id)(ws[j]) != (|w: ActivityWatcher| w.id)(ws[k as int]));
                        }
                    }
                }
            }
            r
        },
        None => false,
    }
}

/// In well-formed tables one id names at most one message.
proof fn lemma_message_ids_unique(tables: &Tables)
    requires
        tables.wf(),
    ensures
        forall|i: int, j: int|
            0 <= i < tables.messages@.len() && 0 <= j < tables.messages@.len() && #[trigger] tables.messages@[i].id
                == #[trigger] tables.messages@[j].id ==> i == j,
{
    assert forall|i: int, j: int|
        0 <= i < tables.messages@.len() && 0 <= j < tables.messages@.len() && #[trigger] tables.messages@[i].id
            == #[trigger] tables.messages@[j].id implies i == j by {
        if i != j {
            assert((|m: ActivityMessage| m.id)(tables.messages@[i]) != (|m: ActivityMessage| m.id)(tables.messages@[j]));
        }
    }
}

/// Keeping the messages that satisfy `p` keeps the store's constraints.
proof fn lemma_keep_messages(before: Tables, after: Tables, p: spec_fn(ActivityMessage) -> bool)
    requires
        before.wf(),
        after.messages@ == before.messages@.filter(p),
        after.watchers@ == before.watchers@,
        after.recorded@ == before.recorded@,
        after.next_watcher_id == before.next_watcher_id,
        after.next_message_id == before.next_message_id,
    ensures
        after.wf(),
{
    lemma_filter_distinct(before.messages@, p, |m: ActivityMessage| m.id);
    assert forall|i: int| #![trigger after.messages@[i]] 0 <= i < after.messages@.len() implies after.messages@[i].id < after.next_message_id
        && has_id(after.watchers@, after.messages@[i].activity_watcher) by {
        let m = after.messages@[i];
        assert(after.messages@.contains(m));
        before.messages@.lemma_filter_contains_rev(p, m);
        let k = choose|k: int| 0 <= k < before.messages@.len() && before.messages@[k] == m;
        assert(before.messages@[k].id < before.next_message_id);
        assert(has_id(before.watchers@, before.messages@[k].activity_watcher));
    }
    assert(distinct_by(after.messages@, |m: ActivityMessage| m.id));
}

} // verus!

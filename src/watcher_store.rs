//! Reads and writes of watcher rows.

use vstd::prelude::*;

use crate::message::{belongs_elsewhere, messages_of, pick, ActivityMessage};
use crate::tables::{
    distinct_by, has_id, lemma_distinct_push, lemma_distinct_remove, lemma_distinct_same_keys, lemma_filter_step, watcher_key, StoreError, Tables,
};
use crate::watcher::{may_record, ActivityWatcher, SilencedUntil};
use crate::{DiscordId, Id};

verus! {

broadcast use vstd::seq_lib::group_filter_ensures;

/// Watchers of `user_id` in `guild_id` for this activity, in any channel.
pub open spec fn for_activity(guild_id: DiscordId, user_id: DiscordId, activity_name: Seq<char>) -> spec_fn(ActivityWatcher) -> bool {
    |w: ActivityWatcher| w.guild_id == guild_id && w.user_id == user_id && w.activity_name@ == activity_name
}

/// Watchers of `user_id` in `guild_id` that post in `channel_id`.
pub open spec fn for_channel(guild_id: DiscordId, user_id: DiscordId, channel_id: DiscordId) -> spec_fn(ActivityWatcher) -> bool {
    |w: ActivityWatcher| w.guild_id == guild_id && w.user_id == user_id && w.channel_id == channel_id
}

/// Some stored watcher has this key.
pub open spec fn key_taken(ws: Seq<ActivityWatcher>, guild_id: DiscordId, user_id: DiscordId, activity_name: Seq<char>, channel_id: DiscordId) -> bool {
    exists|k: int| 0 <= k < ws.len() && ws[k].has_key(guild_id, user_id, activity_name, channel_id)
}

/// A watcher row replaced by `w`, which keeps its id and key, keeps the
/// store's constraints.
pub proof fn lemma_rewrite_watcher(before: Tables, after: Tables, k: int, w: ActivityWatcher)
    requires
        before.wf(),
        0 <= k < before.watchers@.len(),
        w.id == before.watchers@[k].id,
        watcher_key(w) == watcher_key(before.watchers@[k]),
        after.watchers@ == before.watchers@.update(k, w),
        after.messages@ == before.messages@,
        after.recorded@ == before.recorded@,
        after.next_watcher_id == before.next_watcher_id,
        after.next_message_id == before.next_message_id,
    ensures
        after.wf(),
{
    let ws = before.watchers@;
    let ns = after.watchers@;
    assert forall|i: int| #![trigger ns[i]] 0 <= i < ns.len() implies ns[i].id == ws[i].id && watcher_key(ns[i]) == watcher_key(ws[i]) by {}
    lemma_distinct_same_keys(ws, ns, |w: ActivityWatcher| w.id);
    lemma_distinct_same_keys(ws, ns, |w: ActivityWatcher| watcher_key(w));
    assert forall|i: int| #![trigger after.messages@[i]] 0 <= i < after.messages@.len()
        implies has_id(ns, after.messages@[i].activity_watcher) by {
        let id = after.messages@[i].activity_watcher;
        assert(has_id(ws, id));
        let j = choose|j: int| 0 <= j < ws.len() && ws[j].id == id;
        assert(ns[j].id == id);
    }
}

/// The position of the stored watcher with this id.
pub open spec fn position_of(ws: Seq<ActivityWatcher>, id: Id) -> int {
    choose|k: int| 0 <= k < ws.len() && ws[k].id == id
}

/// The trigger recorder's write on the stored watchers: the rows afterwards,
/// and whether the write took effect.
pub open spec fn recorder_write(ws: Seq<ActivityWatcher>, id: Id, now: u64) -> (Seq<ActivityWatcher>, bool) {
    let k = position_of(ws, id);
    if has_id(ws, id) && may_record(ws[k], now) {
        (ws.update(k, ws[k].with_last_triggered(now)), true)
    } else {
        (ws, false)
    }
}

/// With distinct ids, a watcher's id leads back to its position.
pub proof fn lemma_position_of(ws: Seq<ActivityWatcher>, k: int)
    requires
        distinct_by(ws, |w: ActivityWatcher| w.id),
        0 <= k < ws.len(),
    ensures
        has_id(ws, ws[k].id),
        position_of(ws, ws[k].id) == k,
{
    assert(ws[k].id == ws[k].id);
    let p = position_of(ws, ws[k].id);
    if p != k {
        assert((|w: ActivityWatcher| w.id)(ws[p]) != (|w: ActivityWatcher| w.id)(ws[k]));
    }
}

impl ActivityWatcher {
    /// The watcher with this key; created, with no trigger or silence recorded,
    /// when there is none yet.
    pub fn get_or_create(tables: &mut Tables, guild_id: DiscordId, user_id: DiscordId, activity_name: &str, channel_id: DiscordId) -> (r: Result<ActivityWatcher, StoreError>)
        requires
            old(tables).wf(),
        ensures
            final(tables).wf(),
            final(tables).messages@ == old(tables).messages@,
            final(tables).recorded@ == old(tables).recorded@,
            final(tables).next_message_id == old(tables).next_message_id,
            key_taken(old(tables).watchers@, guild_id, user_id, activity_name@, channel_id) ==> {
                &&& *final(tables) == *old(tables)
                &&& r is Ok
                &&& old(tables).watchers@.contains(r->Ok_0)
                &&& r->Ok_0.has_key(guild_id, user_id, activity_name@, channel_id)
            },
            !key_taken(old(tables).watchers@, guild_id, user_id, activity_name@, channel_id) ==> match r {
                Ok(w) => {
                    &&& old(tables).next_watcher_id < u64::MAX
                    &&& w == (ActivityWatcher {
                        id: old(tables).next_watcher_id,
                        guild_id,
                        user_id,
                        activity_name: w.activity_name,
                        channel_id,
                        last_triggered: None,
                        silenced_until: None,
                    })
                    &&& w.activity_name@ == activity_name@
                    &&& final(tables).watchers@ == old(tables).watchers@.push(w)
                    &&& final(tables).next_watcher_id == old(tables).next_watcher_id + 1
                },
                Err(e) => {
                    &&& e == StoreError::IdsExhausted
                    &&& old(tables).next_watcher_id == u64::MAX
                    &&& *final(tables) == *old(tables)
                },
            },
    {
        let name = activity_name.to_owned();
        let mut k: usize = 0;
        while k < tables.watchers.len()
            invariant
                *tables == *old(tables),
                tables.wf(),
                k <= tables.watchers@.len(),
                name@ == activity_name@,
                forall|j: int| 0 <= j < k ==> !tables.watchers@[j].has_key(guild_id, user_id, activity_name@, channel_id),
            decreases tables.watchers@.len() - k,
        {
            let w = &tables.watchers[k];
            if w.guild_id == guild_id && w.user_id == user_id && w.activity_name == name && w.channel_id == channel_id {
                let r = w.duplicate();
                assert(tables.watchers@[k as int] == r);
                return Ok(r);
            }
            k = k + 1;
        }
        if tables.next_watcher_id == u64::MAX {
            return Err(StoreError::IdsExhausted);
        }
        let w = ActivityWatcher {
            id: tables.next_watcher_id,
            guild_id,
            user_id,
            activity_name: name,
            channel_id,
            last_triggered: None,
            silenced_until: None,
        };
        let r = w.duplicate();
        tables.watchers.push(w);
        tables.next_watcher_id = tables.next_watcher_id + 1;
        proof {
            let ws = old(tables).watchers@;
            let ns = tables.watchers@;
            assert forall|i: int| #![trigger ns[i]] 0 <= i < ns.len() - 1 implies ns[i] == ws[i] by {}
            let x = ns[ns.len() - 1];
            assert(ns == ws.push(x));
            lemma_distinct_push(ws, x, |w: ActivityWatcher| w.id);
            lemma_distinct_push(ws, x, |w: ActivityWatcher| watcher_key(w));
            assert forall|i: int| #![trigger tables.messages@[i]] 0 <= i < tables.messages@.len()
                implies has_id(ns, tables.messages@[i].activity_watcher) by {
                let id = tables.messages@[i].activity_watcher;
                assert(has_id(ws, id));
                let j = choose|j: int| 0 <= j < ws.len() && ws[j].id == id;
                assert(ns[j].id == id);
            }
        }
        Ok(r)
    }

    /// The watcher with this id.
    pub fn get(tables: &Tables, id: Id) -> (r: Option<ActivityWatcher>)
        ensures
            match r {
                Some(w) => tables.watchers@.contains(w) && w.id == id,
                None => !has_id(tables.watchers@, id),
            },
    {
        match tables.find_watcher(id) {
            Some(k) => Some(tables.watchers[k].duplicate()),
            None => None,
        }
    }

    /// The watchers of `user_id` in `guild_id` for this activity, in store order.
    pub fn query(tables: &Tables, guild_id: DiscordId, user_id: DiscordId, activity_name: &str) -> (r: Vec<ActivityWatcher>)
        ensures
            r@ == tables.watchers@.filter(for_activity(guild_id, user_id, activity_name@)),
    {
        let ghost ws = tables.watchers@;
        let ghost p = for_activity(guild_id, user_id, activity_name@);
        let name = activity_name.to_owned();
        let mut r: Vec<ActivityWatcher> = Vec::new();
        let mut i: usize = 0;
        while i < tables.watchers.len()
            invariant
                ws == tables.watchers@,
                p == for_activity(guild_id, user_id, activity_name@),
                name@ == activity_name@,
                i <= ws.len(),
                r@ == ws.subrange(0, i as int).filter(p),
            decreases ws.len() - i,
        {
            proof { lemma_filter_step(ws, i as int, p); }
            let w = &tables.watchers[i];
            if w.guild_id == guild_id && w.user_id == user_id && w.activity_name == name {
                r.push(w.duplicate());
            }
            i = i + 1;
        }
        assert(ws.subrange(0, ws.len() as int) =~= ws);
        r
    }

    /// The watchers of `user_id` in `guild_id` that post in `channel_id`, in store order.
    pub fn query_by_channel(tables: &Tables, guild_id: DiscordId, user_id: DiscordId, channel_id: DiscordId) -> (r: Vec<ActivityWatcher>)
        ensures
            r@ == tables.watchers@.filter(for_channel(guild_id, user_id, channel_id)),
    {
        let ghost ws = tables.watchers@;
        let ghost p = for_channel(guild_id, user_id, channel_id);
        let mut r: Vec<ActivityWatcher> = Vec::new();
        let mut i: usize = 0;
        while i < tables.watchers.len()
            invariant
                ws == tables.watchers@,
                p == for_channel(guild_id, user_id, channel_id),
                i <= ws.len(),
                r@ == ws.subrange(0, i as int).filter(p),
            decreases ws.len() - i,
        {
            proof { lemma_filter_step(ws, i as int, p); }
            let w = &tables.watchers[i];
            if w.guild_id == guild_id && w.user_id == user_id && w.channel_id == channel_id {
                r.push(w.duplicate());
            }
            i = i + 1;
        }
        assert(ws.subrange(0, ws.len() as int) =~= ws);
        r
    }

    /// One of this watcher's messages, chosen by `choice`.
    pub fn query_random_message(&self, tables: &Tables, choice: u64) -> (r: Option<ActivityMessage>)
        ensures
            r == pick(messages_of(tables.messages@, self.id), choice),
    {
        ActivityMessage::query_randomly_by_activity_watcher(tables, self.id, choice)
    }

    /// Deletes this watcher's messages and returns them.
    pub fn delete_messages(&self, tables: &mut Tables) -> (r: Vec<ActivityMessage>)
        requires
            old(tables).wf(),
        ensures
            final(tables).wf(),
            r@ == messages_of(old(tables).messages@, self.id),
            final(tables).messages@ == old(tables).messages@.filter(belongs_elsewhere(self.id)),
            final(tables).watchers@ == old(tables).watchers@,
            final(tables).recorded@ == old(tables).recorded@,
            final(tables).next_watcher_id == old(tables).next_watcher_id,
            final(tables).next_message_id == old(tables).next_message_id,
    {
        ActivityMessage::delete_all_by_activity_watcher(tables, self.id)
    }

    /// The trigger recorder's conditional write: in one step, records that the
    /// watcher fired at `now`, only if the stored row has no trigger yet or one
    /// before `now`. On success this snapshot becomes the stored row; otherwise
    /// nothing changes.
    pub fn update_last_triggered(&mut self, tables: &mut Tables, now: u64) -> (r: bool)
        requires
            old(tables).wf(),
        ensures
            final(tables).wf(),
            (final(tables).watchers@, r) == recorder_write(old(tables).watchers@, old(self).id, now),
            r ==> *final(self) == final(tables).watchers@[position_of(old(tables).watchers@, old(self).id)],
            !r ==> *final(tables) == *old(tables) && *final(self) == *old(self),
            final(tables).messages@ == old(tables).messages@,
            final(tables).recorded@ == old(tables).recorded@,
            final(tables).next_watcher_id == old(tables).next_watcher_id,
            final(tables).next_message_id == old(tables).next_message_id,
    {
        match tables.find_watcher(self.id) {
            None => false,
            Some(k) => {
                proof { lemma_position_of(tables.watchers@, k as int); }
                let ok = match tables.watchers[k].last_triggered {
                    Some(t) => t < now,
                    None => true,
                };
                if ok {
                    tables.watchers[k].last_triggered = Some(now);
                    *self = tables.watchers[k].duplicate();
                    proof { lemma_rewrite_watcher(*old(tables), *tables, k as int, *self); }
                }
                ok
            },
        }
    }

    /// Sets or clears the stored silence of this watcher; this snapshot becomes
    /// the stored row. Returns whether the row exists.
    pub fn set_silenced_until(&mut self, until: Option<SilencedUntil>, tables: &mut Tables) -> (r: bool)
        requires
            old(tables).wf(),
        ensures
            final(tables).wf(),
            r == has_id(old(tables).watchers@, old(self).id),
            r ==> exists|k: int| 0 <= k < old(tables).watchers@.len() && old(tables).watchers@[k].id == old(self).id
                && *final(self) == old(tables).watchers@[k].with_silence(until)
                && final(tables).watchers@ == old(tables).watchers@.update(k, *final(self)),
            !r ==> *final(tables) == *old(tables) && *final(self) == *old(self),
            final(tables).messages@ == old(tables).messages@,
            final(tables).recorded@ == old(tables).recorded@,
            final(tables).next_watcher_id == old(tables).next_watcher_id,
            final(tables).next_message_id == old(tables).next_message_id,
    {
        match tables.find_watcher(self.id) {
            None => false,
            Some(k) => {
                tables.watchers[k].silenced_until = until;
                *self = tables.watchers[k].duplicate();
                proof { lemma_rewrite_watcher(*old(tables), *tables, k as int, *self); }
                true
            },
        }
    }

    /// Deletes this watcher's row. Its messages must be gone first: the store
    /// does not cascade.
    pub fn delete(self, tables: &mut Tables) -> (r: Result<(), StoreError>)
        requires
            old(tables).wf(),
        ensures
            final(tables).wf(),
            match r {
                Ok(()) => {
                    &&& messages_of(old(tables).messages@, self.id).len() == 0
                    &&& exists|k: int| 0 <= k < old(tables).watchers@.len() && old(tables).watchers@[k].id == self.id
                        && final(tables).watchers@ == old(tables).watchers@.remove(k)
                    &&& final(tables).messages@ == old(tables).messages@
                    &&& final(tables).recorded@ == old(tables).recorded@
                    &&& final(tables).next_watcher_id == old(tables).next_watcher_id
                    &&& final(tables).next_message_id == old(tables).next_message_id
                },
                Err(e) => {
                    &&& *final(tables) == *old(tables)
                    &&& if has_id(old(tables).watchers@, self.id) {
                        e == StoreError::WatcherInUse && messages_of(old(tables).messages@, self.id).len() > 0
                    } else {
                        e == StoreError::MissingWatcher
                    }
                },
            },
    {
        match tables.find_watcher(self.id) {
            None => Err(StoreError::MissingWatcher),
            Some(k) => {
                if tables.watcher_has_messages(self.id) {
                    proof {
                        let i = choose|i: int| 0 <= i < tables.messages@.len() && tables.messages@[i].activity_watcher == self.id;
                        assert(tables.messages@.contains(tables.messages@[i]));
                        assert(messages_of(tables.messages@, self.id).contains(tables.messages@[i]));
                    }
                    return Err(StoreError::WatcherInUse);
                }
                proof {
                    let f = messages_of(tables.messages@, self.id);
                    if f.len() > 0 {
                        assert(f.contains(f[0]));
                        tables.messages@.lemma_filter_contains_rev(crate::message::belongs_to(self.id), f[0]);
                    }
                    lemma_watcher_ids_unique(tables);
                }
                tables.watchers.remove(k);
                proof {
                    let ws = old(tables).watchers@;
                    let ns = tables.watchers@;
                    lemma_distinct_remove(ws, k as int, |w: ActivityWatcher| w.id);
                    lemma_distinct_remove(ws, k as int, |w: ActivityWatcher| watcher_key(w));
                    assert forall|i: int| #![trigger tables.messages@[i]] 0 <= i < tables.messages@.len()
                        implies has_id(ns, tables.messages@[i].activity_watcher) by {
                        let id = tables.messages@[i].activity_watcher;
                        assert(id != self.id);
                        let j = choose|j: int| 0 <= j < ws.len() && ws[j].id == id;
                        assert(j != k);
                        let j2 = if j < k { j } else { j - 1 };
                        assert(ns[j2].id == id);
                    }
                }
                Ok(())
            },
        }
    }
}

/// In well-formed tables one id names at most one watcher.
pub proof fn lemma_watcher_ids_unique(tables: &Tables)
    requires
        tables.wf(),
    ensures
        forall|i: int, j: int|
            0 <= i < tables.watchers@.len() && 0 <= j < tables.watchers@.len() && #[trigger] tables.watchers@[i].id
                == #[trigger] tables.watchers@[j].id ==> i == j,
{
    assert forall|i: int, j: int|
        0 <= i < tables.watchers@.len() && 0 <= j < tables.watchers@.len() && #[trigger] tables.watchers@[i].id
            == #[trigger] tables.watchers@[j].id implies i == j by {
        if i != j {
            assert((|w: ActivityWatcher| w.id)(tables.watchers@[i]) != (|w: ActivityWatcher| w.id)(tables.watchers@[j]));
        }
    }
}

} // verus!

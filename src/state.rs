//! The store handle and the operations the command surface and the event
//! ingestor run on it. Multi-row writes are staged in a transaction and
//! committed at once, so a failed or abandoned write leaves nothing behind.

use vstd::prelude::*;

use crate::message::{messages_of, owned_in, ActivityMessage};
use crate::recorded::{at_most, of_user, RecordedActivity, RECORDED_LIST_LIMIT};
use crate::tables::{has_id, lemma_filter_distinct, lemma_filter_step, watcher_key, StoreError, Tables};
use crate::watcher::{ActivityWatcher, SilencedUntil};
use crate::watcher_store::{
    for_activity, for_channel, key_taken, lemma_rewrite_watcher, lemma_watcher_ids_unique, position_of, recorder_write,
};
use crate::{DiscordId, Id};

verus! {

broadcast use vstd::seq_lib::group_filter_ensures;

/// A text channel of a guild.
#[derive(Clone, Copy, Debug, PartialEq, Eq, Structural)]
pub struct GuildChannel {
    pub guild_id: DiscordId,
    pub id: DiscordId,
}

/// The store, passed explicitly to every operation.
#[derive(Debug)]
pub struct State {
    pub tables: Tables,
}

/// Writes staged on a copy of the tables; they take effect only on commit.
#[derive(Debug)]
pub struct Transaction {
    pub staged: Tables,
}

/// The view of an optional activity name.
pub open spec fn name_view(activity_name: Option<&str>) -> Option<Seq<char>> {
    match activity_name {
        Some(s) => Some(s@),
        None => None,
    }
}

/// The watchers a channel command acts on: the user's watchers of this guild
/// channel, only those of one activity when one is named.
pub open spec fn in_scope(channel: GuildChannel, user_id: DiscordId, activity_name: Option<Seq<char>>) -> spec_fn(ActivityWatcher) -> bool {
    |w: ActivityWatcher|
        w.guild_id == channel.guild_id && w.user_id == user_id && w.channel_id == channel.id && match activity_name {
            Some(n) => w.activity_name@ == n,
            None => true,
        }
}

/// Watchers outside the scope.
pub open spec fn out_of_scope(channel: GuildChannel, user_id: DiscordId, activity_name: Option<Seq<char>>) -> spec_fn(ActivityWatcher) -> bool {
    |w: ActivityWatcher| !in_scope(channel, user_id, activity_name)(w)
}

/// The message belongs to a watcher of `ws` that the scope holds.
pub open spec fn owner_in_scope(ws: Seq<ActivityWatcher>, scope: spec_fn(ActivityWatcher) -> bool, m: ActivityMessage) -> bool {
    exists|k: int| 0 <= k < ws.len() && ws[k].id == m.activity_watcher && scope(ws[k])
}

/// Messages of watchers in the scope.
pub open spec fn scoped_messages(ws: Seq<ActivityWatcher>, scope: spec_fn(ActivityWatcher) -> bool) -> spec_fn(ActivityMessage) -> bool {
    |m: ActivityMessage| owner_in_scope(ws, scope, m)
}

/// Messages of watchers outside the scope.
pub open spec fn unscoped_messages(ws: Seq<ActivityWatcher>, scope: spec_fn(ActivityWatcher) -> bool) -> spec_fn(ActivityMessage) -> bool {
    |m: ActivityMessage| !owner_in_scope(ws, scope, m)
}

/// Whether the watcher is in the scope.
fn is_in_scope(w: &ActivityWatcher, channel: GuildChannel, user_id: DiscordId, activity_name: &Option<String>) -> (r: bool)
    ensures
        r == in_scope(channel, user_id, match activity_name { Some(s) => Some(s@), None => None })(*w),
{
    if w.guild_id != channel.guild_id || w.user_id != user_id || w.channel_id != channel.id {
        return false;
    }
    match activity_name {
        Some(n) => w.activity_name == *n,
        None => true,
    }
}

/// An owned copy of an optional activity name.
fn owned_name(activity_name: Option<&str>) -> (r: Option<String>)
    ensures
        match r { Some(s) => Some(s@), None => None } == name_view(activity_name),
{
    match activity_name {
        Some(s) => Some(s.to_owned()),
        None => None,
    }
}

/// Whether the message's watcher is in the scope.
fn has_owner_in_scope(tables: &Tables, m: &ActivityMessage, channel: GuildChannel, user_id: DiscordId, activity_name: &Option<String>) -> (r: bool)
    requires
        tables.wf(),
    ensures
        r == owner_in_scope(tables.watchers@, in_scope(channel, user_id, match activity_name { Some(s) => Some(s@), None => None }), *m),
{
    match tables.find_watcher(m.activity_watcher) {
        Some(k) => {
            proof { lemma_watcher_ids_unique(tables); }
            is_in_scope(&tables.watchers[k], channel, user_id, activity_name)
        },
        None => false,
    }
}

/// Deletes every watcher in the scope together with its messages, and
/// returns the deleted messages in store order.
pub fn remove_scope(tables: &mut Tables, channel: GuildChannel, user_id: DiscordId, activity_name: Option<&str>) -> (r: Vec<ActivityMessage>)
    requires
        old(tables).wf(),
    ensures
        final(tables).wf(),
        r@ == old(tables).messages@.filter(scoped_messages(old(tables).watchers@, in_scope(channel, user_id, name_view(activity_name)))),
        final(tables).messages@ == old(tables).messages@.filter(unscoped_messages(old(tables).watchers@, in_scope(channel, user_id, name_view(activity_name)))),
        final(tables).watchers@ == old(tables).watchers@.filter(out_of_scope(channel, user_id, name_view(activity_name))),
        final(tables).recorded@ == old(tables).recorded@,
        final(tables).next_watcher_id == old(tables).next_watcher_id,
        final(tables).next_message_id == old(tables).next_message_id,
{
    let name = owned_name(activity_name);
    let ghost ws = tables.watchers@;
    let ghost ms = tables.messages@;
    let ghost scope = in_scope(channel, user_id, name_view(activity_name));
    let ghost gone = scoped_messages(ws, scope);
    let ghost kept_msg = unscoped_messages(ws, scope);
    let ghost kept_w = out_of_scope(channel, user_id, name_view(activity_name));
    let mut removed: Vec<ActivityMessage> = Vec::new();
    let mut kept: Vec<ActivityMessage> = Vec::new();
    let mut i: usize = 0;
    while i < tables.messages.len()
        invariant
            *tables == *old(tables),
            tables.wf(),
            ws == tables.watchers@,
            ms == tables.messages@,
            scope == in_scope(channel, user_id, name_view(activity_name)),
            match name { Some(s) => Some(s@), None => None } == name_view(activity_name),
            gone == scoped_messages(ws, scope),
            kept_msg == unscoped_messages(ws, scope),
            i <= ms.len(),
            removed@ == ms.subrange(0, i as int).filter(gone),
            kept@ == ms.subrange(0, i as int).filter(kept_msg),
        decreases ms.len() - i,
    {
        proof {
            lemma_filter_step(ms, i as int, gone);
            lemma_filter_step(ms, i as int, kept_msg);
        }
        if has_owner_in_scope(tables, &tables.messages[i], channel, user_id, &name) {
            removed.push(tables.messages[i].duplicate());
        } else {
            kept.push(tables.messages[i].duplicate());
        }
        i = i + 1;
    }
    let mut remaining: Vec<ActivityWatcher> = Vec::new();
    let mut j: usize = 0;
    while j < tables.watchers.len()
        invariant
            *tables == *old(tables),
            ws == tables.watchers@,
            kept_w == out_of_scope(channel, user_id, name_view(activity_name)),
            match name { Some(s) => Some(s@), None => None } == name_view(activity_name),
            j <= ws.len(),
            remaining@ == ws.subrange(0, j as int).filter(kept_w),
        decreases ws.len() - j,
    {
        proof { lemma_filter_step(ws, j as int, kept_w); }
        if !is_in_scope(&tables.watchers[j], channel, user_id, &name) {
            remaining.push(tables.watchers[j].duplicate());
        }
        j = j + 1;
    }
    assert(ms.subrange(0, ms.len() as int) =~= ms);
    assert(ws.subrange(0, ws.len() as int) =~= ws);
    tables.messages = kept;
    tables.watchers = remaining;
    proof {
        let nw = tables.watchers@;
        let nm = tables.messages@;
        lemma_filter_distinct(ws, kept_w, |w: ActivityWatcher| w.id);
        lemma_filter_distinct(ws, kept_w, |w: ActivityWatcher| watcher_key(w));
        lemma_filter_distinct(ms, kept_msg, |m: ActivityMessage| m.id);
        assert forall|a: int| #![trigger nw[a]] 0 <= a < nw.len() implies nw[a].id < tables.next_watcher_id by {
            assert(nw.contains(nw[a]));
            ws.lemma_filter_contains_rev(kept_w, nw[a]);
        }
        assert forall|a: int| #![trigger nm[a]] 0 <= a < nm.len()
            implies nm[a].id < tables.next_message_id && has_id(nw, nm[a].activity_watcher) by {
            let m = nm[a];
            assert(nm.contains(m));
            ms.lemma_filter_contains_rev(kept_msg, m);
            let b = choose|b: int| 0 <= b < ms.len() && ms[b] == m;
            assert(ms[b].id < old(tables).next_message_id);
            assert(has_id(ws, m.activity_watcher));
            let k = choose|k: int| 0 <= k < ws.len() && ws[k].id == m.activity_watcher;
            assert(kept_msg(m));
            assert(!scope(ws[k]));
            assert(kept_w(ws[k]));
            assert(nw.contains(ws[k]));
            let c = choose|c: int| 0 <= c < nw.len() && nw[c] == ws[k];
            assert(nw[c].id == m.activity_watcher);
        }
    }
    removed
}

/// Every watcher in the scope with its silence set to `until`.
pub open spec fn silence_in_scope(ws: Seq<ActivityWatcher>, scope: spec_fn(ActivityWatcher) -> bool, until: Option<SilencedUntil>) -> Seq<ActivityWatcher> {
    ws.map_values(|w: ActivityWatcher| if scope(w) { w.with_silence(until) } else { w })
}

/// Watchers with their silence set to `until`.
pub open spec fn all_silenced(ws: Seq<ActivityWatcher>, until: Option<SilencedUntil>) -> Seq<ActivityWatcher> {
    ws.map_values(|w: ActivityWatcher| w.with_silence(until))
}

/// Sets the silence of every watcher in the scope; returns them as stored afterwards.
pub fn silence_scope(tables: &mut Tables, channel: GuildChannel, user_id: DiscordId, activity_name: Option<&str>, until: Option<SilencedUntil>) -> (r: Vec<ActivityWatcher>)
    requires
        old(tables).wf(),
    ensures
        final(tables).wf(),
        final(tables).watchers@ == silence_in_scope(old(tables).watchers@, in_scope(channel, user_id, name_view(activity_name)), until),
        r@ == all_silenced(old(tables).watchers@.filter(in_scope(channel, user_id, name_view(activity_name))), until),
        final(tables).messages@ == old(tables).messages@,
        final(tables).recorded@ == old(tables).recorded@,
        final(tables).next_watcher_id == old(tables).next_watcher_id,
        final(tables).next_message_id == old(tables).next_message_id,
{
    let name = owned_name(activity_name);
    let ghost ws = tables.watchers@;
    let ghost scope = in_scope(channel, user_id, name_view(activity_name));
    let mut r: Vec<ActivityWatcher> = Vec::new();
    let mut k: usize = 0;
    while k < tables.watchers.len()
        invariant
            tables.wf(),
            ws == old(tables).watchers@,
            scope == in_scope(channel, user_id, name_view(activity_name)),
            match name { Some(s) => Some(s@), None => None } == name_view(activity_name),
            tables.watchers@.len() == ws.len(),
            k <= ws.len(),
            forall|j: int| 0 <= j < k ==> tables.watchers@[j] == (if scope(ws[j]) { ws[j].with_silence(until) } else { ws[j] }),
            forall|j: int| k <= j < ws.len() ==> tables.watchers@[j] == ws[j],
            r@ == all_silenced(ws.subrange(0, k as int).filter(scope), until),
            tables.messages@ == old(tables).messages@,
            tables.recorded@ == old(tables).recorded@,
            tables.next_watcher_id == old(tables).next_watcher_id,
            tables.next_message_id == old(tables).next_message_id,
        decreases ws.len() - k,
    {
        proof { lemma_filter_step(ws, k as int, scope); }
        if is_in_scope(&tables.watchers[k], channel, user_id, &name) {
            let ghost before = *tables;
            tables.watchers[k].silenced_until = until;
            proof {
                lemma_rewrite_watcher(before, *tables, k as int, tables.watchers@[k as int]);
                assert(all_silenced(ws.subrange(0, k + 1).filter(scope), until) =~= r@.push(tables.watchers@[k as int]));
            }
            r.push(tables.watchers[k].duplicate());
        } else {
            proof {
                assert(all_silenced(ws.subrange(0, k + 1).filter(scope), until) =~= r@);
            }
        }
        k = k + 1;
    }
    assert(ws.subrange(0, ws.len() as int) =~= ws);
    assert(tables.watchers@ =~= silence_in_scope(ws, scope, until));
    r
}

impl State {
    /// Silences every watcher in the scope until `until`, replacing any
    /// earlier silence, automatic or manual; returns the silenced watchers.
    pub fn silence_triggers(&mut self, channel: GuildChannel, user_id: DiscordId, activity_name: Option<&str>, until: SilencedUntil) -> (r: Vec<ActivityWatcher>)
        requires
            old(self).tables.wf(),
        ensures
            final(self).tables.wf(),
            final(self).tables.watchers@ == silence_in_scope(old(self).tables.watchers@, in_scope(channel, user_id, name_view(activity_name)), Some(until)),
            r@ == all_silenced(old(self).tables.watchers@.filter(in_scope(channel, user_id, name_view(activity_name))), Some(until)),
            final(self).tables.messages@ == old(self).tables.messages@,
            final(self).tables.recorded@ == old(self).tables.recorded@,
            final(self).tables.next_watcher_id == old(self).tables.next_watcher_id,
            final(self).tables.next_message_id == old(self).tables.next_message_id,
    {
        silence_scope(&mut self.tables, channel, user_id, activity_name, Some(until))
    }

    /// Clears the silence of every watcher in the scope; returns them.
    pub fn unsilence_triggers(&mut self, channel: GuildChannel, user_id: DiscordId, activity_name: Option<&str>) -> (r: Vec<ActivityWatcher>)
        requires
            old(self).tables.wf(),
        ensures
            final(self).tables.wf(),
            final(self).tables.watchers@ == silence_in_scope(old(self).tables.watchers@, in_scope(channel, user_id, name_view(activity_name)), None),
            r@ == all_silenced(old(self).tables.watchers@.filter(in_scope(channel, user_id, name_view(activity_name))), None),
            final(self).tables.messages@ == old(self).tables.messages@,
            final(self).tables.recorded@ == old(self).tables.recorded@,
            final(self).tables.next_watcher_id == old(self).tables.next_watcher_id,
            final(self).tables.next_message_id == old(self).tables.next_message_id,
    {
        silence_scope(&mut self.tables, channel, user_id, activity_name, None)
    }

    /// A store with no rows.
    pub fn new() -> (r: State)
        ensures
            r.tables.wf(),
            r.tables.watchers@.len() == 0,
            r.tables.messages@.len() == 0,
            r.tables.recorded@.len() == 0,
            r.tables.next_watcher_id == 1,
            r.tables.next_message_id == 1,
    {
        State { tables: Tables::new() }
    }

    /// Starts a transaction on a copy of the current rows.
    pub fn begin(&self) -> (tx: Transaction)
        requires
            self.tables.wf(),
        ensures
            tx.staged.same_rows(self.tables),
            tx.staged.wf(),
    {
        Transaction { staged: self.tables.copy() }
    }

    /// Makes the transaction's rows the current ones.
    pub fn commit(&mut self, tx: Transaction)
        ensures
            final(self).tables == tx.staged,
    {
        self.tables = tx.staged;
    }

    /// Registers a message for an activity in a channel, creating the watcher
    /// when the user has none there for that activity. Both rows are written
    /// together or not at all.
    pub fn add_triggered_message(&mut self, channel: GuildChannel, user_id: DiscordId, activity_name: &str, message: &str) -> (r: Result<ActivityMessage, StoreError>)
        requires
            old(self).tables.wf(),
        ensures
            final(self).tables.wf(),
            final(self).tables.recorded@ == old(self).tables.recorded@,
            match r {
                Ok(m) => {
                    &&& m.message@ == message@
                    &&& m.id == old(self).tables.next_message_id
                    &&& final(self).tables.messages@ == old(self).tables.messages@.push(m)
                    &&& final(self).tables.next_message_id == old(self).tables.next_message_id + 1
                    &&& final(self).tables.next_watcher_id == if key_taken(old(self).tables.watchers@, channel.guild_id, user_id, activity_name@, channel.id) {
                        old(self).tables.next_watcher_id as int
                    } else {
                        old(self).tables.next_watcher_id + 1
                    }
                    &&& exists|k: int| 0 <= k < final(self).tables.watchers@.len()
                        && final(self).tables.watchers@[k].id == m.activity_watcher
                        && final(self).tables.watchers@[k].has_key(channel.guild_id, user_id, activity_name@, channel.id)
                    &&& key_taken(old(self).tables.watchers@, channel.guild_id, user_id, activity_name@, channel.id)
                        ==> final(self).tables.watchers@ == old(self).tables.watchers@
                    &&& !key_taken(old(self).tables.watchers@, channel.guild_id, user_id, activity_name@, channel.id)
                        ==> final(self).tables.watchers@.len() == old(self).tables.watchers@.len() + 1
                        && final(self).tables.watchers@.drop_last() == old(self).tables.watchers@
                        && final(self).tables.watchers@.last().last_triggered is None
                        && final(self).tables.watchers@.last().silenced_until is None
                },
                Err(e) => {
                    &&& e == StoreError::IdsExhausted
                    &&& *final(self) == *old(self)
                    &&& old(self).tables.next_message_id == u64::MAX
                        || (!key_taken(old(self).tables.watchers@, channel.guild_id, user_id, activity_name@, channel.id)
                            && old(self).tables.next_watcher_id == u64::MAX)
                },
            },
    {
        let mut tx = self.begin();
        let w = match ActivityWatcher::get_or_create(&mut tx.staged, channel.guild_id, user_id, activity_name, channel.id) {
            Ok(w) => w,
            Err(e) => return Err(e),
        };
        let ghost mid = tx.staged;
        proof {
            if !key_taken(old(self).tables.watchers@, channel.guild_id, user_id, activity_name@, channel.id) {
                assert(mid.watchers@[mid.watchers@.len() - 1] == w);
                assert(mid.watchers@.drop_last() =~= old(self).tables.watchers@);
            }
            assert(mid.watchers@.contains(w));
            let k = choose|k: int| 0 <= k < mid.watchers@.len() && mid.watchers@[k] == w;
            assert(has_id(mid.watchers@, w.id));
        }
        let m = match ActivityMessage::create(&mut tx.staged, w.id, message) {
            Ok(m) => m,
            Err(e) => return Err(e),
        };
        proof {
            assert(mid.watchers@.contains(w));
            let k = choose|k: int| 0 <= k < mid.watchers@.len() && mid.watchers@[k] == w;
            assert(tx.staged.watchers@[k] == w);
        }
        self.commit(tx);
        Ok(m)
    }

    /// Deletes every watcher in the scope and all their messages, as one
    /// transaction; returns the deleted messages.
    pub fn remove_all_triggered_messages(&mut self, channel: GuildChannel, user_id: DiscordId, activity_name: Option<&str>) -> (r: Vec<ActivityMessage>)
        requires
            old(self).tables.wf(),
        ensures
            final(self).tables.wf(),
            r@ == old(self).tables.messages@.filter(scoped_messages(old(self).tables.watchers@, in_scope(channel, user_id, name_view(activity_name)))),
            final(self).tables.messages@ == old(self).tables.messages@.filter(unscoped_messages(old(self).tables.watchers@, in_scope(channel, user_id, name_view(activity_name)))),
            final(self).tables.watchers@ == old(self).tables.watchers@.filter(out_of_scope(channel, user_id, name_view(activity_name))),
            final(self).tables.recorded@ == old(self).tables.recorded@,
            final(self).tables.next_watcher_id == old(self).tables.next_watcher_id,
            final(self).tables.next_message_id == old(self).tables.next_message_id,
    {
        let mut tx = self.begin();
        let removed = remove_scope(&mut tx.staged, channel, user_id, activity_name);
        self.commit(tx);
        removed
    }

    /// Deletes one message, only if its watcher belongs to `user_id` in this
    /// channel. Returns whether it was deleted.
    pub fn remove_triggered_message(&mut self, channel: GuildChannel, user_id: DiscordId, message_id: Id) -> (r: bool)
        requires
            old(self).tables.wf(),
        ensures
            final(self).tables.wf(),
            final(self).tables.watchers@ == old(self).tables.watchers@,
            r == exists|i: int| 0 <= i < old(self).tables.messages@.len() && old(self).tables.messages@[i].id == message_id
                && owned_by_view(old(self).tables, old(self).tables.messages@[i], user_id, channel.id),
            r ==> exists|i: int| 0 <= i < old(self).tables.messages@.len() && old(self).tables.messages@[i].id == message_id
                && final(self).tables.messages@ == old(self).tables.messages@.remove(i),
            !r ==> *final(self) == *old(self),
            final(self).tables.recorded@ == old(self).tables.recorded@,
            final(self).tables.next_watcher_id == old(self).tables.next_watcher_id,
            final(self).tables.next_message_id == old(self).tables.next_message_id,
    {
        let r = ActivityMessage::delete_by_id_if_allowed(&mut self.tables, message_id, user_id, channel.id);
        r.is_some()
    }

    /// The message with this id, if its watcher belongs to `user_id` in this channel.
    pub fn get_triggered_message(&self, channel: GuildChannel, user_id: DiscordId, message_id: Id) -> (r: Option<ActivityMessage>)
        requires
            self.tables.wf(),
        ensures
            match r {
                Some(m) => self.tables.messages@.contains(m) && m.id == message_id && owned_by_view(self.tables, m, user_id, channel.id),
                None => forall|i: int| 0 <= i < self.tables.messages@.len() && #[trigger] self.tables.messages@[i].id == message_id
                    ==> !owned_by_view(self.tables, self.tables.messages@[i], user_id, channel.id),
            },
    {
        ActivityMessage::get_if_allowed(&self.tables, message_id, user_id, channel.id)
    }

    /// The user's watchers in this guild channel, and the user's messages of
    /// watchers in this channel.
    pub fn get_watchers_and_messages(&self, channel: GuildChannel, user_id: DiscordId) -> (r: (Vec<ActivityWatcher>, Vec<ActivityMessage>))
        requires
            self.tables.wf(),
        ensures
            r.0@ == self.tables.watchers@.filter(for_channel(channel.guild_id, user_id, channel.id)),
            r.1@ == self.tables.messages@.filter(owned_in(self.tables.watchers@, user_id, channel.id)),
    {
        let watchers = ActivityWatcher::query_by_channel(&self.tables, channel.guild_id, user_id, channel.id);
        let messages = ActivityMessage::query_by_user_channel(&self.tables, user_id, channel.id);
        (watchers, messages)
    }

    /// The watchers in the scope, and their messages.
    pub fn list_triggers(&self, channel: GuildChannel, user_id: DiscordId, activity_name: Option<&str>) -> (r: (Vec<ActivityWatcher>, Vec<ActivityMessage>))
        requires
            self.tables.wf(),
        ensures
            r.0@ == self.tables.watchers@.filter(in_scope(channel, user_id, name_view(activity_name))),
            r.1@ == self.tables.messages@.filter(scoped_messages(self.tables.watchers@, in_scope(channel, user_id, name_view(activity_name)))),
    {
        let name = owned_name(activity_name);
        let ghost ws = self.tables.watchers@;
        let ghost ms = self.tables.messages@;
        let ghost scope = in_scope(channel, user_id, name_view(activity_name));
        let ghost mine = scoped_messages(ws, scope);
        let mut watchers: Vec<ActivityWatcher> = Vec::new();
        let mut j: usize = 0;
        while j < self.tables.watchers.len()
            invariant
                ws == self.tables.watchers@,
                scope == in_scope(channel, user_id, name_view(activity_name)),
                match name { Some(s) => Some(s@), None => None } == name_view(activity_name),
                j <= ws.len(),
                watchers@ == ws.subrange(0, j as int).filter(scope),
            decreases ws.len() - j,
        {
            proof { lemma_filter_step(ws, j as int, scope); }
            if is_in_scope(&self.tables.watchers[j], channel, user_id, &name) {
                watchers.push(self.tables.watchers[j].duplicate());
            }
            j = j + 1;
        }
        let mut messages: Vec<ActivityMessage> = Vec::new();
        let mut i: usize = 0;
        while i < self.tables.messages.len()
            invariant
                self.tables.wf(),
                ws == self.tables.watchers@,
                ms == self.tables.messages@,
                scope == in_scope(channel, user_id, name_view(activity_name)),
                mine == scoped_messages(ws, scope),
                match name { Some(s) => Some(s@), None => None } == name_view(activity_name),
                i <= ms.len(),
                messages@ == ms.subrange(0, i as int).filter(mine),
            decreases ms.len() - i,
        {
            proof { lemma_filter_step(ms, i as int, mine); }
            if has_owner_in_scope(&self.tables, &self.tables.messages[i], channel, user_id, &name) {
                messages.push(self.tables.messages[i].duplicate());
            }
            i = i + 1;
        }
        assert(ms.subrange(0, ms.len() as int) =~= ms);
        assert(ws.subrange(0, ws.len() as int) =~= ws);
        (watchers, messages)
    }

    /// The watchers of `user_id` in `guild_id` for this activity, across channels.
    pub fn get_watchers(&self, user_id: DiscordId, guild_id: DiscordId, activity_name: &str) -> (r: Vec<ActivityWatcher>)
        ensures
            r@ == self.tables.watchers@.filter(for_activity(guild_id, user_id, activity_name@)),
    {
        ActivityWatcher::query(&self.tables, guild_id, user_id, activity_name)
    }

    /// One of the watcher's messages, chosen by `choice`.
    pub fn query_random_message_for_watcher(&self, activity_watcher: &ActivityWatcher, choice: u64) -> (r: Option<ActivityMessage>)
        ensures
            r == crate::message::pick(messages_of(self.tables.messages@, activity_watcher.id), choice),
    {
        activity_watcher.query_random_message(&self.tables, choice)
    }

    /// The trigger recorder's conditional write for the watcher; see
    /// `ActivityWatcher::update_last_triggered`.
    pub fn update_last_triggered_for_watcher(&mut self, activity_watcher: &mut ActivityWatcher, now: u64) -> (r: bool)
        requires
            old(self).tables.wf(),
        ensures
            final(self).tables.wf(),
            (final(self).tables.watchers@, r) == recorder_write(old(self).tables.watchers@, old(activity_watcher).id, now),
            r ==> *final(activity_watcher) == final(self).tables.watchers@[position_of(old(self).tables.watchers@, old(activity_watcher).id)],
            !r ==> *final(self) == *old(self) && *final(activity_watcher) == *old(activity_watcher),
            final(self).tables.messages@ == old(self).tables.messages@,
            final(self).tables.recorded@ == old(self).tables.recorded@,
            final(self).tables.next_watcher_id == old(self).tables.next_watcher_id,
            final(self).tables.next_message_id == old(self).tables.next_message_id,
    {
        activity_watcher.update_last_triggered(&mut self.tables, now)
    }

    /// Records that the user was seen in this activity.
    pub fn record_activity(&mut self, user_id: DiscordId, activity_name: &str) -> (r: RecordedActivity)
        requires
            old(self).tables.wf(),
        ensures
            final(self).tables.wf(),
            r.user_id == user_id,
            r.activity_name@ == activity_name@,
            final(self).tables.watchers@ == old(self).tables.watchers@,
            final(self).tables.messages@ == old(self).tables.messages@,
            old(self).tables.recorded@.contains(r) ==> final(self).tables.recorded@ == old(self).tables.recorded@,
            !old(self).tables.recorded@.contains(r) ==> final(self).tables.recorded@ == old(self).tables.recorded@.push(r),
    {
        RecordedActivity::get_or_create(&mut self.tables, user_id, activity_name)
    }

    /// The user's recorded activities, at most `RECORDED_LIST_LIMIT` of them.
    pub fn get_recorded_activites(&self, user_id: DiscordId) -> (r: Vec<RecordedActivity>)
        ensures
            r@ == at_most(self.tables.recorded@.filter(of_user(user_id)), RECORDED_LIST_LIMIT as nat),
    {
        RecordedActivity::query_by_user(&self.tables, user_id)
    }

    /// Silences the watcher until `until`, replacing any earlier silence.
    /// Returns whether the watcher is still stored.
    pub fn silence_watcher_until(&mut self, activity_watcher: &mut ActivityWatcher, until: SilencedUntil) -> (r: bool)
        requires
            old(self).tables.wf(),
        ensures
            final(self).tables.wf(),
            r == has_id(old(self).tables.watchers@, old(activity_watcher).id),
            r ==> exists|k: int| 0 <= k < old(self).tables.watchers@.len() && old(self).tables.watchers@[k].id == old(activity_watcher).id
                && *final(activity_watcher) == old(self).tables.watchers@[k].with_silence(Some(until))
                && final(self).tables.watchers@ == old(self).tables.watchers@.update(k, *final(activity_watcher)),
            !r ==> *final(self) == *old(self) && *final(activity_watcher) == *old(activity_watcher),
            final(self).tables.messages@ == old(self).tables.messages@,
            final(self).tables.recorded@ == old(self).tables.recorded@,
            final(self).tables.next_watcher_id == old(self).tables.next_watcher_id,
            final(self).tables.next_message_id == old(self).tables.next_message_id,
    {
        activity_watcher.set_silenced_until(Some(until), &mut self.tables)
    }

    /// Clears the watcher's silence. Returns whether the watcher is still stored.
    pub fn unsilence_watcher(&mut self, activity_watcher: &mut ActivityWatcher) -> (r: bool)
        requires
            old(self).tables.wf(),
        ensures
            final(self).tables.wf(),
            r == has_id(old(self).tables.watchers@, old(activity_watcher).id),
            r ==> exists|k: int| 0 <= k < old(self).tables.watchers@.len() && old(self).tables.watchers@[k].id == old(activity_watcher).id
                && *final(activity_watcher) == old(self).tables.watchers@[k].with_silence(None)
                && final(self).tables.watchers@ == old(self).tables.watchers@.update(k, *final(activity_watcher)),
            !r ==> *final(self) == *old(self) && *final(activity_watcher) == *old(activity_watcher),
            final(self).tables.messages@ == old(self).tables.messages@,
            final(self).tables.recorded@ == old(self).tables.recorded@,
            final(self).tables.next_watcher_id == old(self).tables.next_watcher_id,
            final(self).tables.next_message_id == old(self).tables.next_message_id,
    {
        activity_watcher.set_silenced_until(None, &mut self.tables)
    }
}

/// The message's watcher belongs to `user_id` in `channel_id`.
pub open spec fn owned_by_view(tables: Tables, m: ActivityMessage, user_id: DiscordId, channel_id: DiscordId) -> bool {
    crate::message::owned_by(tables.watchers@, m, user_id, channel_id)
}

} // verus!

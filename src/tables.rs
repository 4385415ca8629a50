//! The stored tables of watchers, messages and recorded activities, with the
//! constraints the store keeps: unique ids, a unique key per watcher, and no
//! message whose watcher is gone.

use vstd::prelude::*;

use crate::message::ActivityMessage;
use crate::recorded::RecordedActivity;
use crate::watcher::ActivityWatcher;
use crate::Id;

verus! {

broadcast use vstd::seq_lib::group_filter_ensures;

/// Why a write to the store was refused. A refused write changes nothing.
#[derive(Clone, Copy, Debug, PartialEq, Eq, Structural)]
pub enum StoreError {
    /// No fresh row id is left.
    IdsExhausted,
    /// The row that the write refers to does not exist.
    MissingWatcher,
    /// The watcher still owns messages; they must be deleted first.
    WatcherInUse,
}

/// All rows of the store.
#[derive(Debug)]
pub struct Tables {
    pub watchers: Vec<ActivityWatcher>,
    pub messages: Vec<ActivityMessage>,
    pub recorded: Vec<RecordedActivity>,
    pub next_watcher_id: Id,
    pub next_message_id: Id,
}

/// No two elements of `s` share a key.
pub open spec fn distinct_by<A, K>(s: Seq<A>, key: spec_fn(A) -> K) -> bool {
    forall|i: int, j: int|
        0 <= i < s.len() && 0 <= j < s.len() && i != j ==> key(s[i]) != key(s[j])
}

/// The unique key of a watcher.
pub open spec fn watcher_key(w: ActivityWatcher) -> (u64, u64, Seq<char>, u64) {
    (w.guild_id, w.user_id, w.activity_name@, w.channel_id)
}

/// Some watcher in `ws` has this id.
pub open spec fn has_id(ws: Seq<ActivityWatcher>, id: Id) -> bool {
    exists|k: int| 0 <= k < ws.len() && ws[k].id == id
}

impl Tables {
    /// The store's constraints hold.
    pub open spec fn wf(&self) -> bool {
        &&& distinct_by(self.watchers@, |w: ActivityWatcher| w.id)
        &&& distinct_by(self.watchers@, |w: ActivityWatcher| watcher_key(w))
        &&& forall|i: int| 0 <= i < self.watchers@.len() ==> #[trigger] self.watchers@[i].id < self.next_watcher_id
        &&& distinct_by(self.messages@, |m: ActivityMessage| m.id)
        &&& forall|i: int| 0 <= i < self.messages@.len() ==> #[trigger] self.messages@[i].id < self.next_message_id
        &&& forall|i: int| 0 <= i < self.messages@.len() ==> has_id(self.watchers@, #[trigger] self.messages@[i].activity_watcher)
        &&& distinct_by(self.recorded@, |r: RecordedActivity| (r.user_id, r.activity_name@))
    }

    /// Empty tables.
    pub fn new() -> (r: Tables)
        ensures
            r.wf(),
            r.watchers@.len() == 0,
            r.messages@.len() == 0,
            r.recorded@.len() == 0,
            r.next_watcher_id == 1,
            r.next_message_id == 1,
    {
        Tables {
            watchers: Vec::new(),
            messages: Vec::new(),
            recorded: Vec::new(),
            next_watcher_id: 1,
            next_message_id: 1,
        }
    }

    /// A copy of every row.
    pub fn copy(&self) -> (r: Tables)
        ensures
            r.same_rows(*self),
    {
        let mut watchers: Vec<ActivityWatcher> = Vec::new();
        let mut i: usize = 0;
        while i < self.watchers.len()
            invariant
                i <= self.watchers@.len(),
                watchers@ == self.watchers@.subrange(0, i as int),
            decreases self.watchers@.len() - i,
        {
            watchers.push(self.watchers[i].duplicate());
            i = i + 1;
            assert(watchers@ =~= self.watchers@.subrange(0, i as int));
        }
        let mut messages: Vec<ActivityMessage> = Vec::new();
        let mut i: usize = 0;
        while i < self.messages.len()
            invariant
                i <= self.messages@.len(),
                messages@ == self.messages@.subrange(0, i as int),
            decreases self.messages@.len() - i,
        {
            messages.push(self.messages[i].duplicate());
            i = i + 1;
            assert(messages@ =~= self.messages@.subrange(0, i as int));
        }
        let mut recorded: Vec<RecordedActivity> = Vec::new();
        let mut i: usize = 0;
        while i < self.recorded.len()
            invariant
                i <= self.recorded@.len(),
                recorded@ == self.recorded@.subrange(0, i as int),
            decreases self.recorded@.len() - i,
        {
            recorded.push(self.recorded[i].duplicate());
            i = i + 1;
            assert(recorded@ =~= self.recorded@.subrange(0, i as int));
        }
        assert(watchers@ =~= self.watchers@);
        assert(messages@ =~= self.messages@);
        assert(recorded@ =~= self.recorded@);
        Tables { watchers, messages, recorded, next_watcher_id: self.next_watcher_id, next_message_id: self.next_message_id }
    }

    /// Tables holding these rows, with fresh ids following the largest stored
    /// ones; none when the rows break the store's constraints.
    pub fn from_rows(watchers: Vec<ActivityWatcher>, messages: Vec<ActivityMessage>, recorded: Vec<RecordedActivity>) -> (r: Option<Tables>)
        ensures
            r is Some == rows_consistent(watchers@, messages@, recorded@),
            r matches Some(t) ==> {
                &&& t.wf()
                &&& t.watchers@ == watchers@
                &&& t.messages@ == messages@
                &&& t.recorded@ == recorded@
                &&& t.next_watcher_id == 1 || exists|i: int| 0 <= i < watchers@.len() && watchers@[i].id + 1 == t.next_watcher_id
                &&& t.next_message_id == 1 || exists|i: int| 0 <= i < messages@.len() && messages@[i].id + 1 == t.next_message_id
            },
    {
        if !watcher_ids_distinct(&watchers) || !watcher_keys_distinct(&watchers) || !message_ids_distinct(&messages)
            || !recorded_distinct(&recorded) {
            return None;
        }
        let mut next_watcher_id: u64 = 1;
        let mut i: usize = 0;
        while i < watchers.len()
            invariant
                i <= watchers@.len(),
                forall|a: int| 0 <= a < i ==> #[trigger] watchers@[a].id < next_watcher_id && watchers@[a].id < u64::MAX,
                next_watcher_id == 1 || exists|a: int| 0 <= a < watchers@.len() && watchers@[a].id + 1 == next_watcher_id,
            decreases watchers@.len() - i,
        {
            if watchers[i].id == u64::MAX {
                return None;
            }
            if watchers[i].id >= next_watcher_id {
                next_watcher_id = watchers[i].id + 1;
            }
            i = i + 1;
        }
        let mut next_message_id: u64 = 1;
        let mut i: usize = 0;
        while i < messages.len()
            invariant
                i <= messages@.len(),
                forall|a: int| 0 <= a < i ==> #[trigger] messages@[a].id < next_message_id && messages@[a].id < u64::MAX,
                next_message_id == 1 || exists|a: int| 0 <= a < messages@.len() && messages@[a].id + 1 == next_message_id,
            decreases messages@.len() - i,
        {
            if messages[i].id == u64::MAX {
                return None;
            }
            if messages[i].id >= next_message_id {
                next_message_id = messages[i].id + 1;
            }
            i = i + 1;
        }
        let ghost ws = watchers@;
        let ghost ms = messages@;
        let t = Tables { watchers, messages, recorded, next_watcher_id, next_message_id };
        let mut i: usize = 0;
        while i < t.messages.len()
            invariant
                t.watchers@ == ws,
                t.messages@ == ms,
                rows_consistent(ws, ms, t.recorded@) == rows_consistent(watchers@, messages@, recorded@),
                i <= t.messages@.len(),
                forall|a: int| 0 <= a < i ==> has_id(t.watchers@, #[trigger] t.messages@[a].activity_watcher),
            decreases t.messages@.len() - i,
        {
            if t.find_watcher(t.messages[i].activity_watcher).is_none() {
                proof {
                    assert(!has_id(ws, ms[i as int].activity_watcher));
                    assert(!rows_consistent(ws, ms, t.recorded@));
                }
                return None;
            }
            i = i + 1;
        }
        Some(t)
    }

    /// Both hold the same rows and the same id counters.
    pub open spec fn same_rows(&self, other: Tables) -> bool {
        &&& self.watchers@ == other.watchers@
        &&& self.messages@ == other.messages@
        &&& self.recorded@ == other.recorded@
        &&& self.next_watcher_id == other.next_watcher_id
        &&& self.next_message_id == other.next_message_id
    }

    /// The position of the watcher with this id.
    pub fn find_watcher(&self, id: Id) -> (r: Option<usize>)
        ensures
            match r {
                Some(k) => k < self.watchers@.len() && self.watchers@[k as int].id == id,
                None => !has_id(self.watchers@, id),
            },
    {
        let mut k: usize = 0;
        while k < self.watchers.len()
            invariant
                k <= self.watchers@.len(),
                forall|j: int| 0 <= j < k ==> self.watchers@[j].id != id,
            decreases self.watchers@.len() - k,
        {
            if self.watchers[k].id == id {
                return Some(k);
            }
            k = k + 1;
        }
        None
    }

    /// Whether some message belongs to the watcher with this id.
    pub fn watcher_has_messages(&self, id: Id) -> (r: bool)
        ensures
            r == exists|i: int| 0 <= i < self.messages@.len() && self.messages@[i].activity_watcher == id,
    {
        let mut i: usize = 0;
        while i < self.messages.len()
            invariant
                i <= self.messages@.len(),
                forall|j: int| 0 <= j < i ==> self.messages@[j].activity_watcher != id,
            decreases self.messages@.len() - i,
        {
            if self.messages[i].activity_watcher == id {
                return true;
            }
            i = i + 1;
        }
        false
    }
}

/// Rows that can stand as the store's tables: the constraints hold, and no
/// id is the largest `u64`, so fresh ids follow the largest stored one.
pub open spec fn rows_consistent(ws: Seq<ActivityWatcher>, ms: Seq<ActivityMessage>, rs: Seq<RecordedActivity>) -> bool {
    &&& distinct_by(ws, |w: ActivityWatcher| w.id)
    &&& distinct_by(ws, |w: ActivityWatcher| watcher_key(w))
    &&& distinct_by(ms, |m: ActivityMessage| m.id)
    &&& forall|i: int| 0 <= i < ms.len() ==> has_id(ws, #[trigger] ms[i].activity_watcher)
    &&& distinct_by(rs, |r: RecordedActivity| (r.user_id, r.activity_name@))
    &&& forall|i: int| 0 <= i < ws.len() ==> #[trigger] ws[i].id < u64::MAX
    &&& forall|i: int| 0 <= i < ms.len() ==> #[trigger] ms[i].id < u64::MAX
}

/// Whether the watchers' ids are distinct.
fn watcher_ids_distinct(ws: &Vec<ActivityWatcher>) -> (r: bool)
    ensures
        r == distinct_by(ws@, |w: ActivityWatcher| w.id),
{
    let n = ws.len();
    let mut i: usize = 0;
    while i < n
        invariant
            n == ws@.len(),
            i <= n,
            forall|a: int, b: int| 0 <= a < i && 0 <= b < n && a != b ==> ws@[a].id != ws@[b].id,
        decreases n - i,
    {
        let mut j: usize = 0;
        while j < n
            invariant
                n == ws@.len(),
                i < n,
                j <= n,
                forall|a: int, b: int| 0 <= a < i && 0 <= b < n && a != b ==> ws@[a].id != ws@[b].id,
                forall|b: int| 0 <= b < j && b != i ==> ws@[i as int].id != ws@[b].id,
            decreases n - j,
        {
            if j != i && ws[i].id == ws[j].id {
                proof {
                    assert((|w: ActivityWatcher| w.id)(ws@[i as int]) == (|w: ActivityWatcher| w.id)(ws@[j as int]));
                }
                return false;
            }
            j = j + 1;
        }
        i = i + 1;
    }
    proof {
        assert forall|a: int, b: int| 0 <= a < n && 0 <= b < n && a != b
            implies (|w: ActivityWatcher| w.id)(ws@[a]) != (|w: ActivityWatcher| w.id)(ws@[b]) by {}
    }
    true
}

/// Whether the watchers' keys are distinct.
fn watcher_keys_distinct(ws: &Vec<ActivityWatcher>) -> (r: bool)
    ensures
        r == distinct_by(ws@, |w: ActivityWatcher| watcher_key(w)),
{
    let n = ws.len();
    let mut i: usize = 0;
    while i < n
        invariant
            n == ws@.len(),
            i <= n,
            forall|a: int, b: int| 0 <= a < i && 0 <= b < n && a != b ==> watcher_key(ws@[a]) != watcher_key(ws@[b]),
        decreases n - i,
    {
        let mut j: usize = 0;
        while j < n
            invariant
                n == ws@.len(),
                i < n,
                j <= n,
                forall|a: int, b: int| 0 <= a < i && 0 <= b < n && a != b ==> watcher_key(ws@[a]) != watcher_key(ws@[b]),
                forall|b: int| 0 <= b < j && b != i ==> watcher_key(ws@[i as int]) != watcher_key(ws@[b]),
            decreases n - j,
        {
            let x = &ws[i];
            let y = &ws[j];
            if j != i && x.guild_id == y.guild_id && x.user_id == y.user_id && x.channel_id == y.channel_id
                && x.activity_name == y.activity_name {
                proof {
                    assert((|w: ActivityWatcher| watcher_key(w))(ws@[i as int]) == (|w: ActivityWatcher| watcher_key(w))(ws@[j as int]));
                }
                return false;
            }
            j = j + 1;
        }
        i = i + 1;
    }
    proof {
        assert forall|a: int, b: int| 0 <= a < n && 0 <= b < n && a != b
            implies (|w: ActivityWatcher| watcher_key(w))(ws@[a]) != (|w: ActivityWatcher| watcher_key(w))(ws@[b]) by {}
    }
    true
}

/// Whether the messages' ids are distinct.
fn message_ids_distinct(ms: &Vec<ActivityMessage>) -> (r: bool)
    ensures
        r == distinct_by(ms@, |m: ActivityMessage| m.id),
{
    let n = ms.len();
    let mut i: usize = 0;
    while i < n
        invariant
            n == ms@.len(),
            i <= n,
            forall|a: int, b: int| 0 <= a < i && 0 <= b < n && a != b ==> ms@[a].id != ms@[b].id,
        decreases n - i,
    {
        let mut j: usize = 0;
        while j < n
            invariant
                n == ms@.len(),
                i < n,
                j <= n,
                forall|a: int, b: int| 0 <= a < i && 0 <= b < n && a != b ==> ms@[a].id != ms@[b].id,
                forall|b: int| 0 <= b < j && b != i ==> ms@[i as int].id != ms@[b].id,
            decreases n - j,
        {
            if j != i && ms[i].id == ms[j].id {
                proof {
                    assert((|m: ActivityMessage| m.id)(ms@[i as int]) == (|m: ActivityMessage| m.id)(ms@[j as int]));
                }
                return false;
            }
            j = j + 1;
        }
        i = i + 1;
    }
    proof {
        assert forall|a: int, b: int| 0 <= a < n && 0 <= b < n && a != b
            implies (|m: ActivityMessage| m.id)(ms@[a]) != (|m: ActivityMessage| m.id)(ms@[b]) by {}
    }
    true
}

/// Whether the recorded activities are distinct per user and name.
fn recorded_distinct(rs: &Vec<RecordedActivity>) -> (r: bool)
    ensures
        r == distinct_by(rs@, |r: RecordedActivity| (r.user_id, r.activity_name@)),
{
    let n = rs.len();
    let mut i: usize = 0;
    while i < n
        invariant
            n == rs@.len(),
            i <= n,
            forall|a: int, b: int| 0 <= a < i && 0 <= b < n && a != b
                ==> (rs@[a].user_id, rs@[a].activity_name@) != (rs@[b].user_id, rs@[b].activity_name@),
        decreases n - i,
    {
        let mut j: usize = 0;
        while j < n
            invariant
                n == rs@.len(),
                i < n,
                j <= n,
                forall|a: int, b: int| 0 <= a < i && 0 <= b < n && a != b
                    ==> (rs@[a].user_id, rs@[a].activity_name@) != (rs@[b].user_id, rs@[b].activity_name@),
                forall|b: int| 0 <= b < j && b != i
                    ==> (rs@[i as int].user_id, rs@[i as int].activity_name@) != (rs@[b].user_id, rs@[b].activity_name@),
            decreases n - j,
        {
            if j != i && rs[i].user_id == rs[j].user_id && rs[i].activity_name == rs[j].activity_name {
                proof {
                    assert((|r: RecordedActivity| (r.user_id, r.activity_name@))(rs@[i as int])
                        == (|r: RecordedActivity| (r.user_id, r.activity_name@))(rs@[j as int]));
                }
                return false;
            }
            j = j + 1;
        }
        i = i + 1;
    }
    proof {
        assert forall|a: int, b: int| 0 <= a < n && 0 <= b < n && a != b
            implies (|r: RecordedActivity| (r.user_id, r.activity_name@))(rs@[a])
                != (|r: RecordedActivity| (r.user_id, r.activity_name@))(rs@[b]) by {}
    }
    true
}

/// Appending an element whose key no element has keeps keys distinct.
pub proof fn lemma_distinct_push<A, K>(s: Seq<A>, x: A, key: spec_fn(A) -> K)
    requires
        distinct_by(s, key),
        forall|i: int| 0 <= i < s.len() ==> key(#[trigger] s[i]) != key(x),
    ensures
        distinct_by(s.push(x), key),
{
    let t = s.push(x);
    assert forall|i: int, j: int| 0 <= i < t.len() && 0 <= j < t.len() && i != j implies key(t[i]) != key(t[j]) by {
        if i < s.len() {
            assert(t[i] == s[i]);
        }
        if j < s.len() {
            assert(t[j] == s[j]);
        }
    }
}

/// Removing an element keeps keys distinct.
pub proof fn lemma_distinct_remove<A, K>(s: Seq<A>, k: int, key: spec_fn(A) -> K)
    requires
        distinct_by(s, key),
        0 <= k < s.len(),
    ensures
        distinct_by(s.remove(k), key),
{
    let t = s.remove(k);
    assert forall|i: int, j: int| 0 <= i < t.len() && 0 <= j < t.len() && i != j implies key(t[i]) != key(t[j]) by {
        let i2 = if i < k { i } else { i + 1 };
        let j2 = if j < k { j } else { j + 1 };
        assert(t[i] == s[i2] && t[j] == s[j2]);
    }
}

/// A sequence with the same keys, position by position, has distinct keys too.
pub proof fn lemma_distinct_same_keys<A, K>(s: Seq<A>, t: Seq<A>, key: spec_fn(A) -> K)
    requires
        distinct_by(s, key),
        t.len() == s.len(),
        forall|i: int| 0 <= i < s.len() ==> key(#[trigger] t[i]) == key(s[i]),
    ensures
        distinct_by(t, key),
{
    assert forall|i: int, j: int| 0 <= i < t.len() && 0 <= j < t.len() && i != j implies key(t[i]) != key(t[j]) by {
        assert(key(t[i]) == key(s[i]) && key(t[j]) == key(s[j]));
    }
}

/// Filtering a prefix one element longer.
pub proof fn lemma_filter_step<A>(s: Seq<A>, i: int, p: spec_fn(A) -> bool)
    requires
        0 <= i < s.len(),
    ensures
        s.subrange(0, i + 1).filter(p) == if p(s[i]) {
            s.subrange(0, i).filter(p).push(s[i])
        } else {
            s.subrange(0, i).filter(p)
        },
{
    reveal(Seq::filter);
    assert(s.subrange(0, i + 1).drop_last() =~= s.subrange(0, i));
}

/// Filtering keeps keys distinct.
pub proof fn lemma_filter_distinct<A, K>(s: Seq<A>, p: spec_fn(A) -> bool, key: spec_fn(A) -> K)
    requires
        distinct_by(s, key),
    ensures
        distinct_by(s.filter(p), key),
    decreases s.len(),
{
    reveal(Seq::filter);
    if s.len() > 0 {
        let rest = s.drop_last();
        assert(distinct_by(rest, key)) by {
            assert forall|i: int, j: int|
                0 <= i < rest.len() && 0 <= j < rest.len() && i != j implies key(rest[i]) != key(rest[j]) by {
                assert(rest[i] == s[i] && rest[j] == s[j]);
            }
        }
        lemma_filter_distinct(rest, p, key);
        let f = rest.filter(p);
        if p(s.last()) {
            assert forall|i: int| 0 <= i < f.len() implies key(f[i]) != key(s.last()) by {
                assert(f.contains(f[i]));
                rest.lemma_filter_contains_rev(p, f[i]);
                let k = choose|k: int| 0 <= k < rest.len() && rest[k] == f[i];
                assert(s[k] == f[i]);
            }
            let g = f.push(s.last());
            assert(s.filter(p) == g);
            assert forall|i: int, j: int|
                0 <= i < g.len() && 0 <= j < g.len() && i != j implies key(g[i]) != key(g[j]) by {
                if i < f.len() && j < f.len() {
                    assert(g[i] == f[i] && g[j] == f[j]);
                } else if i < f.len() {
                    assert(g[i] == f[i]);
                } else if j < f.len() {
                    assert(g[j] == f[j]);
                }
            }
        }
    }
}

} // verus!

//! Properties that hold across operations of the engine.

use vstd::prelude::*;

use crate::ingest::{decide, dispatch_write, Decision};
use crate::message::{messages_of, pick, ActivityMessage};
use crate::state::{in_scope, out_of_scope, owner_in_scope, scoped_messages, silence_in_scope, unscoped_messages, GuildChannel};
use crate::tables::{distinct_by, has_id, lemma_distinct_same_keys, Tables};
use crate::watcher::{
    eligibility_of, fired_at, may_record, may_record_dispatch, ActivityWatcher, Eligibility, SilencedUntil, DEBOUNCE_MILLIS,
};
use crate::watcher_store::{lemma_position_of, position_of, recorder_write};
use crate::{DiscordId, Id};

verus! {

broadcast use vstd::seq_lib::group_filter_ensures;

/// How many of a sequence of trigger-recorder writes on watcher `id` take
/// effect, applied in the order given (one serialisation of concurrent writes).
pub open spec fn recorder_successes(ws: Seq<ActivityWatcher>, id: Id, nows: Seq<u64>) -> nat
    decreases nows.len(),
{
    if nows.len() == 0 {
        0
    } else {
        let (next, ok) = recorder_write(ws, id, nows[0]);
        (if ok { 1nat } else { 0nat }) + recorder_successes(next, id, nows.drop_first())
    }
}

/// How many of a sequence of dispatch records on watcher `id` for one activity
/// start take effect, applied in the order given.
pub open spec fn dispatch_successes(ws: Seq<ActivityWatcher>, id: Id, started_at: u64, nows: Seq<u64>) -> nat
    decreases nows.len(),
{
    if nows.len() == 0 {
        0
    } else {
        let (next, ok) = dispatch_write(ws, id, started_at, nows[0]);
        (if ok { 1nat } else { 0nat }) + dispatch_successes(next, id, started_at, nows.drop_first())
    }
}

/// How many of the choices `0 .. m` select position `j` among `n` candidates.
pub open spec fn choices_hitting(n: nat, j: nat, m: nat) -> nat
    decreases m,
{
    if m == 0 {
        0
    } else {
        choices_hitting(n, j, (m - 1) as nat) + if ((m - 1) as nat) % n == j { 1nat } else { 0nat }
    }
}

/// Rows with the same ids, position by position, keep ids distinct and each
/// watcher at its position.
pub proof fn lemma_same_ids(ws: Seq<ActivityWatcher>, t: Seq<ActivityWatcher>, k: int)
    requires
        distinct_by(ws, |w: ActivityWatcher| w.id),
        t.len() == ws.len(),
        forall|i: int| 0 <= i < ws.len() ==> (#[trigger] t[i]).id == ws[i].id,
        0 <= k < ws.len(),
    ensures
        distinct_by(t, |w: ActivityWatcher| w.id),
        has_id(t, ws[k].id),
        position_of(t, ws[k].id) == k,
{
    lemma_distinct_same_keys(ws, t, |w: ActivityWatcher| w.id);
    lemma_position_of(t, k);
}

/// No duplicate dispatch: once a watcher's recorded trigger is at or after
/// an activity start, that start and every earlier one are skipped, and a
/// dispatch for them is not recorded.
pub proof fn lemma_no_duplicate(w: ActivityWatcher, ms: Seq<ActivityMessage>, t1: u64, t2: u64, now: u64, choice: u64)
    requires
        t1 <= t2,
        w.last_triggered is Some,
        t2 <= w.last_triggered->Some_0,
    ensures
        decide(w, ms, t1, now, choice) == Decision::AlreadyTriggered,
        decide(w, ms, t2, now, choice) == Decision::AlreadyTriggered,
        !may_record_dispatch(w, t1, now),
        !may_record_dispatch(w, t2, now),
{
}

/// No duplicate dispatch after a dispatch: once the dispatch for a start `t1`
/// is recorded at `fired`, every start `t2` with `t1 <= t2 <= fired` is
/// skipped and its dispatch refused.
pub proof fn lemma_dispatch_then_duplicate(
    ws: Seq<ActivityWatcher>,
    ms: Seq<ActivityMessage>,
    id: Id,
    t1: u64,
    t2: u64,
    fired: u64,
    now: u64,
    choice: u64,
)
    requires
        distinct_by(ws, |w: ActivityWatcher| w.id),
        dispatch_write(ws, id, t1, fired).1,
        t1 <= t2 <= fired,
        fired <= u64::MAX - DEBOUNCE_MILLIS,
    ensures
        ({
            let after = dispatch_write(ws, id, t1, fired).0;
            let k = position_of(after, id);
            &&& decide(after[k], ms, t2, now, choice) == Decision::AlreadyTriggered
            &&& !dispatch_write(after, id, t2, now).1
        }),
{
    let k = position_of(ws, id);
    let after = dispatch_write(ws, id, t1, fired).0;
    lemma_same_ids(ws, after, k);
}

/// Refused recorder writes: once the stored trigger is at or after every
/// write's instant, none of them takes effect.
proof fn lemma_recorder_refused(ws: Seq<ActivityWatcher>, id: Id, nows: Seq<u64>)
    requires
        has_id(ws, id),
        ws[position_of(ws, id)].last_triggered is Some,
        forall|i: int| 0 <= i < nows.len() ==> #[trigger] nows[i] <= ws[position_of(ws, id)].last_triggered->Some_0,
    ensures
        recorder_successes(ws, id, nows) == 0,
    decreases nows.len(),
{
    if nows.len() > 0 {
        let rest = nows.drop_first();
        assert forall|i: int| 0 <= i < rest.len() implies #[trigger] rest[i] <= ws[position_of(ws, id)].last_triggered->Some_0 by {
            assert(rest[i] == nows[i + 1]);
        }
        lemma_recorder_refused(ws, id, rest);
    }
}

/// At most once under races, for the recorder itself: of any number (at
/// least one) of conditional writes on one watcher made with the same clock
/// value, exactly one takes effect when the stored trigger is before it.
pub proof fn lemma_recorder_same_clock(ws: Seq<ActivityWatcher>, id: Id, now: u64, nows: Seq<u64>)
    requires
        distinct_by(ws, |w: ActivityWatcher| w.id),
        has_id(ws, id),
        may_record(ws[position_of(ws, id)], now),
        nows.len() >= 1,
        forall|i: int| 0 <= i < nows.len() ==> #[trigger] nows[i] == now,
    ensures
        recorder_successes(ws, id, nows) == 1,
{
    let k = position_of(ws, id);
    let next = recorder_write(ws, id, nows[0]).0;
    assert(next == ws.update(k, ws[k].with_last_triggered(now)));
    lemma_same_ids(ws, next, k);
    let rest = nows.drop_first();
    assert forall|i: int| 0 <= i < rest.len() implies #[trigger] rest[i] <= next[position_of(next, id)].last_triggered->Some_0 by {
        assert(rest[i] == nows[i + 1]);
    }
    lemma_recorder_refused(next, id, rest);
}

/// Refused dispatches: once the stored watcher fired since the activity
/// start, no dispatch for that start is recorded.
proof fn lemma_dispatch_refused(ws: Seq<ActivityWatcher>, id: Id, started_at: u64, nows: Seq<u64>)
    requires
        has_id(ws, id),
        ws[position_of(ws, id)].triggered_since(started_at),
    ensures
        dispatch_successes(ws, id, started_at, nows) == 0,
    decreases nows.len(),
{
    if nows.len() > 0 {
        lemma_dispatch_refused(ws, id, started_at, nows.drop_first());
    }
}

/// At most once under races: of any number (at least one) of dispatch
/// records on one watcher for the same newly eligible activity start, each
/// made at or after the start, exactly one takes effect, whatever order they
/// are applied in.
pub proof fn lemma_at_most_once(ws: Seq<ActivityWatcher>, id: Id, started_at: u64, nows: Seq<u64>)
    requires
        distinct_by(ws, |w: ActivityWatcher| w.id),
        has_id(ws, id),
        !ws[position_of(ws, id)].triggered_since(started_at),
        nows.len() >= 1,
        forall|i: int| 0 <= i < nows.len() ==> started_at <= #[trigger] nows[i] <= u64::MAX - DEBOUNCE_MILLIS,
    ensures
        dispatch_successes(ws, id, started_at, nows) == 1,
{
    let k = position_of(ws, id);
    let first = nows[0];
    assert(may_record_dispatch(ws[k], started_at, first));
    let next = dispatch_write(ws, id, started_at, first).0;
    lemma_same_ids(ws, next, k);
    lemma_dispatch_refused(next, id, started_at, nows.drop_first());
}

/// Debounce: right after a dispatch recorded at `fired`, the watcher seen
/// again inside the debounce window does not fire; a later activity start is
/// skipped as silenced.
pub proof fn lemma_debounce_within_window(
    ws: Seq<ActivityWatcher>,
    ms: Seq<ActivityMessage>,
    id: Id,
    t1: u64,
    fired: u64,
    started_at: u64,
    now: u64,
    choice: u64,
)
    requires
        distinct_by(ws, |w: ActivityWatcher| w.id),
        dispatch_write(ws, id, t1, fired).1,
        fired <= now < fired + DEBOUNCE_MILLIS,
        fired <= u64::MAX - DEBOUNCE_MILLIS,
    ensures
        ({
            let after = dispatch_write(ws, id, t1, fired).0;
            let k = position_of(after, id);
            &&& !(decide(after[k], ms, started_at, now, choice) is Send)
            &&& started_at > fired ==> decide(after[k], ms, started_at, now, choice) == Decision::Silenced
        }),
{
    let k = position_of(ws, id);
    lemma_same_ids(ws, dispatch_write(ws, id, t1, fired).0, k);
}

/// Debounce: once the window is over, a watcher whose dispatch was recorded
/// at `fired` is eligible again for an activity that started after it fired:
/// it sends whenever it owns a message, and the new dispatch is recorded at
/// `now` with a new debounce window.
pub proof fn lemma_debounce_after_window(
    ws: Seq<ActivityWatcher>,
    ms: Seq<ActivityMessage>,
    id: Id,
    t1: u64,
    fired: u64,
    started_at: u64,
    now: u64,
    choice: u64,
)
    requires
        distinct_by(ws, |w: ActivityWatcher| w.id),
        dispatch_write(ws, id, t1, fired).1,
        fired + DEBOUNCE_MILLIS <= now <= u64::MAX - DEBOUNCE_MILLIS,
        fired < started_at <= now,
    ensures
        ({
            let after = dispatch_write(ws, id, t1, fired).0;
            let k = position_of(after, id);
            &&& eligibility_of(after[k], started_at, now) == Eligibility::Eligible
            &&& messages_of(ms, id).len() > 0 ==> decide(after[k], ms, started_at, now, choice)
                == Decision::Send(pick(messages_of(ms, id), choice)->Some_0)
            &&& dispatch_write(after, id, started_at, now).1
            &&& dispatch_write(after, id, started_at, now).0[k] == fired_at(after[k], now)
        }),
{
    let k = position_of(ws, id);
    lemma_same_ids(ws, dispatch_write(ws, id, t1, fired).0, k);
}

/// Keeping the elements that satisfy a predicate and those that do not
/// splits a sequence in two.
pub proof fn lemma_filter_partition<A>(s: Seq<A>, p: spec_fn(A) -> bool, q: spec_fn(A) -> bool)
    requires
        forall|x: A| #[trigger] q(x) == !p(x),
    ensures
        s.filter(p).len() + s.filter(q).len() == s.len(),
    decreases s.len(),
{
    reveal(Seq::filter);
    if s.len() > 0 {
        lemma_filter_partition(s.drop_last(), p, q);
        assert(q(s.last()) == !p(s.last()));
    }
}

/// Atomic cleanup: removing the triggers of a scope leaves no watcher of the
/// scope and no message of any of them, keeps every other row, and returns
/// exactly the messages it removed. The rows are written only on commit, so
/// a transaction abandoned before it leaves the store as it was.
pub proof fn lemma_cleanup_complete(t: Tables, channel: GuildChannel, user_id: DiscordId, activity_name: Option<Seq<char>>)
    requires
        t.wf(),
    ensures
        ({
            let scope = in_scope(channel, user_id, activity_name);
            let removed = t.messages@.filter(scoped_messages(t.watchers@, scope));
            let kept = t.messages@.filter(unscoped_messages(t.watchers@, scope));
            let remaining = t.watchers@.filter(out_of_scope(channel, user_id, activity_name));
            &&& forall|i: int| 0 <= i < remaining.len() ==> !scope(#[trigger] remaining[i])
            &&& forall|i: int| 0 <= i < kept.len() ==> !owner_in_scope(t.watchers@, scope, #[trigger] kept[i])
            &&& forall|i: int| 0 <= i < kept.len() ==> has_id(remaining, #[trigger] kept[i].activity_watcher)
            &&& forall|i: int| 0 <= i < t.watchers@.len() && !scope(#[trigger] t.watchers@[i]) ==> remaining.contains(t.watchers@[i])
            &&& forall|i: int| 0 <= i < t.messages@.len() && !owner_in_scope(t.watchers@, scope, #[trigger] t.messages@[i])
                ==> kept.contains(t.messages@[i])
            &&& removed.len() + kept.len() == t.messages@.len()
        }),
{
    let scope = in_scope(channel, user_id, activity_name);
    let ws = t.watchers@;
    let ms = t.messages@;
    let gone = scoped_messages(ws, scope);
    let keep = unscoped_messages(ws, scope);
    let stay = out_of_scope(channel, user_id, activity_name);
    let kept = ms.filter(keep);
    let remaining = ws.filter(stay);
    lemma_filter_partition(ms, gone, keep);
    assert forall|i: int| 0 <= i < kept.len() implies has_id(remaining, #[trigger] kept[i].activity_watcher) by {
        let m = kept[i];
        assert(kept.contains(m));
        ms.lemma_filter_contains_rev(keep, m);
        let b = choose|b: int| 0 <= b < ms.len() && ms[b] == m;
        assert(has_id(ws, ms[b].activity_watcher));
        let k = choose|k: int| 0 <= k < ws.len() && ws[k].id == m.activity_watcher;
        assert(keep(m));
        assert(stay(ws[k]));
        assert(remaining.contains(ws[k]));
        let c = choose|c: int| 0 <= c < remaining.len() && remaining[c] == ws[k];
        assert(remaining[c].id == m.activity_watcher);
    }
    assert forall|i: int| 0 <= i < ws.len() && !scope(#[trigger] ws[i]) implies remaining.contains(ws[i]) by {
        assert(stay(ws[i]));
    }
    assert forall|i: int| 0 <= i < ms.len() && !owner_in_scope(ws, scope, #[trigger] ms[i]) implies kept.contains(ms[i]) by {
        assert(keep(ms[i]));
    }
    assert forall|i: int| 0 <= i < remaining.len() implies !scope(#[trigger] remaining[i]) by {
        assert(stay(remaining[i]));
    }
    assert forall|i: int| 0 <= i < kept.len() implies !owner_in_scope(ws, scope, #[trigger] kept[i]) by {
        assert(keep(kept[i]));
    }
}

/// Counting the choices that hit a position, block by block.
proof fn lemma_choices_block(n: nat, j: nat, k: nat, t: nat)
    requires
        0 < n,
        j < n,
        t <= n,
    ensures
        choices_hitting(n, j, k * n + t) == k + if j < t { 1nat } else { 0nat },
    decreases k, t,
{
    if t == 0 {
        if k > 0 {
            lemma_choices_block(n, j, (k - 1) as nat, n);
            assert(((k - 1) as nat) * n + n == k * n) by (nonlinear_arith)
                requires
                    k > 0,
            ;
        } else {
            assert(k * n == 0) by (nonlinear_arith)
                requires
                    k == 0,
            ;
        }
    } else {
        lemma_choices_block(n, j, k, (t - 1) as nat);
        let m: nat = k * n + t;
        let c: nat = (m - 1) as nat;
        assert(c == k * n + (t - 1));
        vstd::arithmetic::div_mod::lemma_mod_multiples_vanish(k as int, (t - 1) as int, n as int);
        vstd::arithmetic::div_mod::lemma_small_mod((t - 1) as nat, n);
        assert(k * n == n * k) by (nonlinear_arith);
        assert(c % n == (t - 1) as nat);
        assert(choices_hitting(n, j, m) == choices_hitting(n, j, c) + if c % n == j { 1nat } else { 0nat });
    }
}

/// Uniform selection: among distinct candidates, a choice selects the
/// candidate at its position modulo their number, so each candidate is
/// selected by exactly `k` of the choices `0 .. k * n`, where `n` is their
/// number.
pub proof fn lemma_pick_uniform(candidates: Seq<ActivityMessage>, k: nat)
    requires
        candidates.len() > 0,
        distinct_by(candidates, |m: ActivityMessage| m.id),
    ensures
        forall|c: u64, j: int| 0 <= j < candidates.len() ==>
            (#[trigger] pick(candidates, c) == Some(#[trigger] candidates[j])) == (c as int % candidates.len() as int == j),
        forall|j: nat| j < candidates.len() ==> #[trigger] choices_hitting(candidates.len(), j, k * candidates.len()) == k,
{
    let n = candidates.len();
    assert forall|c: u64, j: int| 0 <= j < n implies
        (#[trigger] pick(candidates, c) == Some(#[trigger] candidates[j])) == (c as int % n as int == j) by {
        let p = c as int % n as int;
        if p != j {
            assert((|m: ActivityMessage| m.id)(candidates[p]) != (|m: ActivityMessage| m.id)(candidates[j]));
        }
    }
    assert forall|j: nat| j < n implies #[trigger] choices_hitting(n, j, k * n) == k by {
        lemma_choices_block(n, j, k, 0);
    }
}

/// Manual overrides automatic: a watcher of the scope silenced automatically
/// until `auto_end`, then silenced manually until `manual_end`, is silenced
/// until `manual_end`; unsilencing it afterwards makes it eligible at once
/// for any activity start it has not fired for: it sends whenever it owns a
/// message, and the dispatch is recorded.
pub proof fn lemma_manual_overrides_automatic(
    ws: Seq<ActivityWatcher>,
    ms: Seq<ActivityMessage>,
    channel: GuildChannel,
    user_id: DiscordId,
    activity_name: Option<Seq<char>>,
    id: Id,
    auto_end: u64,
    manual_end: u64,
    started_at: u64,
    now: u64,
    choice: u64,
)
    requires
        distinct_by(ws, |w: ActivityWatcher| w.id),
        has_id(ws, id),
        in_scope(channel, user_id, activity_name)(ws[position_of(ws, id)]),
        ws[position_of(ws, id)].silenced_until == Some(SilencedUntil::At(auto_end)),
    ensures
        ({
            let scope = in_scope(channel, user_id, activity_name);
            let k = position_of(ws, id);
            let manual = silence_in_scope(ws, scope, Some(SilencedUntil::At(manual_end)));
            let cleared = silence_in_scope(manual, scope, None);
            &&& position_of(manual, id) == k
            &&& position_of(cleared, id) == k
            &&& manual[k].silenced_until == Some(SilencedUntil::At(manual_end))
            &&& now < manual_end ==> manual[k].silenced_at(now)
            &&& cleared[k].silenced_until is None
            &&& !cleared[k].silenced_at(now)
            &&& !ws[k].triggered_since(started_at) ==> eligibility_of(cleared[k], started_at, now) == Eligibility::Eligible
            &&& !ws[k].triggered_since(started_at) && messages_of(ms, id).len() > 0
                ==> decide(cleared[k], ms, started_at, now, choice) == Decision::Send(pick(messages_of(ms, id), choice)->Some_0)
            &&& !ws[k].triggered_since(started_at) && started_at <= now ==> dispatch_write(cleared, id, started_at, now).1
        }),
{
    let scope = in_scope(channel, user_id, activity_name);
    let k = position_of(ws, id);
    let manual = silence_in_scope(ws, scope, Some(SilencedUntil::At(manual_end)));
    let cleared = silence_in_scope(manual, scope, None);
    assert forall|i: int| 0 <= i < ws.len() implies (#[trigger] manual[i]).id == ws[i].id by {}
    lemma_same_ids(ws, manual, k);
    assert forall|i: int| 0 <= i < ws.len() implies (#[trigger] cleared[i]).id == ws[i].id by {
        assert(manual[i].id == ws[i].id);
    }
    lemma_same_ids(ws, cleared, k);
    assert(manual[k] == ws[k].with_silence(Some(SilencedUntil::At(manual_end))));
    assert(scope(manual[k]));
    assert(cleared[k] == manual[k].with_silence(None));
}

} // verus!

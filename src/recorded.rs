//! Activities seen per user, kept only to suggest activity names.

use vstd::prelude::*;

use crate::tables::{lemma_distinct_push, lemma_filter_step, Tables};
use crate::DiscordId;

verus! {

broadcast use vstd::seq_lib::group_filter_ensures;

/// At most this many recorded activities are listed for a user.
pub const RECORDED_LIST_LIMIT: usize = 25;

/// Records of one user.
pub open spec fn of_user(user_id: DiscordId) -> spec_fn(RecordedActivity) -> bool {
    |r: RecordedActivity| r.user_id == user_id
}

/// The first `n` elements of `s`, or all of them when there are fewer.
pub open spec fn at_most<A>(s: Seq<A>, n: nat) -> Seq<A> {
    if s.len() <= n { s } else { s.subrange(0, n as int) }
}

/// An activity name seen for a user.
#[derive(Debug)]
pub struct RecordedActivity {
    pub user_id: DiscordId,
    pub activity_name: String,
}

impl RecordedActivity {
    /// A copy of this record.
    pub fn duplicate(&self) -> (r: RecordedActivity)
        ensures
            r == *self,
    {
        RecordedActivity { user_id: self.user_id, activity_name: self.activity_name.clone() }
    }

    /// Records that the user was seen in this activity; a record is kept once.
    pub fn get_or_create(tables: &mut Tables, user_id: DiscordId, activity_name: &str) -> (r: RecordedActivity)
        requires
            old(tables).wf(),
        ensures
            final(tables).wf(),
            r.user_id == user_id,
            r.activity_name@ == activity_name@,
            final(tables).watchers@ == old(tables).watchers@,
            final(tables).messages@ == old(tables).messages@,
            final(tables).next_watcher_id == old(tables).next_watcher_id,
            final(tables).next_message_id == old(tables).next_message_id,
            old(tables).recorded@.contains(r) ==> final(tables).recorded@ == old(tables).recorded@,
            !old(tables).recorded@.contains(r) ==> final(tables).recorded@ == old(tables).recorded@.push(r),
    {
        let name = activity_name.to_owned();
        let mut k: usize = 0;
        while k < tables.recorded.len()
            invariant
                *tables == *old(tables),
                tables.wf(),
                k <= tables.recorded@.len(),
                name@ == activity_name@,
                forall|j: int| 0 <= j < k ==> !(tables.recorded@[j].user_id == user_id && tables.recorded@[j].activity_name@ == activity_name@),
            decreases tables.recorded@.len() - k,
        {
            let rec = &tables.recorded[k];
            if rec.user_id == user_id && rec.activity_name == name {
                let r = rec.duplicate();
                assert(tables.recorded@[k as int] == r);
                return r;
            }
            k = k + 1;
        }
        let rec = RecordedActivity { user_id, activity_name: name };
        let r = rec.duplicate();
        tables.recorded.push(rec);
        proof {
            let rs = old(tables).recorded@;
            lemma_distinct_push(rs, r, |r: RecordedActivity| (r.user_id, r.activity_name@));
            if rs.contains(r) {
                let j = choose|j: int| 0 <= j < rs.len() && rs[j] == r;
                assert(false);
            }
        }
        r
    }

    /// The user's recorded activities, in store order, at most
    /// `RECORDED_LIST_LIMIT` of them.
    pub fn query_by_user(tables: &Tables, user_id: DiscordId) -> (r: Vec<RecordedActivity>)
        ensures
            r@ == at_most(tables.recorded@.filter(of_user(user_id)), RECORDED_LIST_LIMIT as nat),
    {
        let ghost rs = tables.recorded@;
        let ghost p = of_user(user_id);
        let mut r: Vec<RecordedActivity> = Vec::new();
        let mut i: usize = 0;
        while i < tables.recorded.len() && r.len() < RECORDED_LIST_LIMIT
            invariant
                rs == tables.recorded@,
                p == of_user(user_id),
                i <= rs.len(),
                r@ == rs.subrange(0, i as int).filter(p),
                r@.len() <= RECORDED_LIST_LIMIT,
            decreases rs.len() - i,
        {
            proof { lemma_filter_step(rs, i as int, p); }
            if tables.recorded[i].user_id == user_id {
                r.push(tables.recorded[i].duplicate());
            }
            i = i + 1;
        }
        proof {
            let a = rs.subrange(0, i as int);
            let b = rs.subrange(i as int, rs.len() as int);
            assert(rs =~= a + b);
            Seq::filter_distributes_over_add(a, b, p);
            if i == rs.len() {
                assert(b.filter(p).len() == 0);
                assert(rs.filter(p) =~= a.filter(p));
            } else {
                assert(rs.filter(p).subrange(0, RECORDED_LIST_LIMIT as int) =~= a.filter(p));
            }
        }
        r
    }
}

} // verus!

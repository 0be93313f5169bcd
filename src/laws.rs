use vstd::prelude::*;

use crate::record::{default_queue, type_listed, JobRecord};
use crate::select::{best, lemma_best};
use crate::state::{
    after_cancel, after_checkout, after_fail, after_unschedule, cancel_ok, has_id, ids_unique,
    index_of, lemma_index_of, lemma_remove_wf, lemma_update_wf, unschedule_ok,
};

verus! {

/// A checkout leaves the queue's ids unique and its length unchanged, and
/// every record but the one it took as it was.
pub proof fn lemma_after_checkout(live: Seq<JobRecord>, types: Seq<String>, now: i64)
    requires
        ids_unique(live),
    ensures
        ids_unique(after_checkout(live, types, now)),
        after_checkout(live, types, now).len() == live.len(),
        forall|j: int|
            0 <= j < live.len() && Some(j) != best(live, types, now) ==> (#[trigger] after_checkout(
                live,
                types,
                now,
            )[j]) == live[j],
{
    lemma_best(live, types, now);
    if let Some(i) = best(live, types, now) {
        lemma_update_wf(live, Seq::empty(), i, live[i].leased(now));
    }
}

/// Once a checkout has leased a record, no later checkout, whatever its job
/// types and instant, can lease that record again.
pub proof fn law_at_most_one_lease(
    live: Seq<JobRecord>,
    types: Seq<String>,
    now: i64,
    types2: Seq<String>,
    now2: i64,
)
    requires
        ids_unique(live),
        best(live, types, now) is Some,
    ensures
        ({
            let taken = live[best(live, types, now)->0].jid@;
            let after = after_checkout(live, types, now);
            best(after, types2, now2) matches Some(j) ==> after[j].jid@ != taken
        }),
{
    let i = best(live, types, now)->0;
    let after = after_checkout(live, types, now);
    lemma_best(live, types, now);
    lemma_after_checkout(live, types, now);
    lemma_best(after, types2, now2);
    if let Some(j) = best(after, types2, now2) {
        assert(after[i].started_at is Some);
        assert(j != i);
        assert(after[j] == live[j]);
    }
}

/// Checkout takes an eligible record of the highest priority present, and
/// the checkout after it takes one of no higher priority.
pub proof fn law_priority_order(live: Seq<JobRecord>, types: Seq<String>, now: i64)
    requires
        ids_unique(live),
    ensures
        best(live, types, now) matches Some(i) ==> forall|j: int|
            0 <= j < live.len() && (#[trigger] live[j]).is_eligible(types, now) ==> live[j].priority
                <= live[i].priority,
        best(live, types, now) matches Some(i) ==> (best(
            after_checkout(live, types, now),
            types,
            now,
        ) matches Some(j) ==> after_checkout(live, types, now)[j].priority <= live[i].priority),
{
    lemma_best(live, types, now);
    if let Some(i) = best(live, types, now) {
        let after = after_checkout(live, types, now);
        lemma_after_checkout(live, types, now);
        lemma_best(after, types, now);
        if let Some(j) = best(after, types, now) {
            assert(after[i].started_at is Some);
            assert(after[j] == live[j]);
        }
    }
}

/// Checkout never takes a record scheduled after `now`, and takes some
/// record whenever a waiting record of a listed type is due.
pub proof fn law_scheduling_gate(live: Seq<JobRecord>, types: Seq<String>, now: i64, k: int)
    requires
        0 <= k < live.len(),
    ensures
        best(live, types, now) matches Some(i) ==> live[i].scheduled_at <= now,
        live[k].scheduled_at > now ==> best(live, types, now) != Some(k),
        live[k].is_waiting() && live[k].queue@ == default_queue() && type_listed(
            types,
            live[k].job_type@,
        ) && live[k].scheduled_at <= now ==> best(live, types, now) is Some,
{
    lemma_best(live, types, now);
}

/// Leasing a waiting record and failing it puts it back waiting with its
/// attempt count one higher and every other field as it was.
pub proof fn law_retry_increment(live: Seq<JobRecord>, types: Seq<String>, now: i64)
    requires
        ids_unique(live),
        best(live, types, now) is Some,
        live[best(live, types, now)->0].retries < i64::MAX,
    ensures
        ({
            let i = best(live, types, now)->0;
            let r = live[i];
            let again = after_fail(after_checkout(live, types, now), r.jid@);
            &&& again.len() == live.len()
            &&& again[i] == (JobRecord { retries: (r.retries + 1) as i64, ..r })
            &&& forall|j: int| 0 <= j < live.len() && j != i ==> #[trigger] again[j] == live[j]
        }),
{
    let i = best(live, types, now)->0;
    let r = live[i];
    let after = after_checkout(live, types, now);
    lemma_best(live, types, now);
    lemma_after_checkout(live, types, now);
    lemma_index_of(after, r.jid@, i);
    let again = after_fail(after, r.jid@);
    assert(again[i] == (JobRecord { retries: (r.retries + 1) as i64, ..r }));
}

/// Of every record, a checkout never lowers the attempt count, and a
/// failure or a move to the dead-letter store keeps it.
pub proof fn law_retries_never_decrease(r: JobRecord, now: i64)
    ensures
        r.leased(now).retries >= r.retries,
        r.leased(now).released().retries == r.leased(now).retries,
        r.leased(now).dead_copy().retries == r.leased(now).retries,
{
}

/// After a committed dead-letter transition the id is in the dead-letter
/// store and no longer in the live queue.
pub proof fn law_dead_letter_moves(
    live: Seq<JobRecord>,
    dead: Seq<JobRecord>,
    jid: Seq<char>,
)
    requires
        ids_unique(live),
        ids_unique(dead),
        crate::state::ids_disjoint(live, dead),
        has_id(live, jid),
    ensures
        ({
            let i = index_of(live, jid);
            &&& !has_id(live.remove(i), jid)
            &&& has_id(dead.push(live[i].dead_copy()), jid)
            &&& dead.push(live[i].dead_copy()).last().is_waiting()
        }),
{
    let i = index_of(live, jid);
    lemma_remove_wf(live, dead, i);
    let d2 = dead.push(live[i].dead_copy());
    assert(d2[dead.len() as int].jid@ == jid);
}

/// Cancel and checkout on one waiting record: if the cancel goes first and
/// succeeds, the checkout cannot take the record; if the checkout goes first
/// and takes it, the cancel is refused.
pub proof fn law_cancel_checkout_exclusive(
    live: Seq<JobRecord>,
    jid: Seq<char>,
    types: Seq<String>,
    now: i64,
)
    requires
        ids_unique(live),
    ensures
        cancel_ok(live, jid) ==> (best(after_cancel(live, jid), types, now) matches Some(j)
            ==> after_cancel(live, jid)[j].jid@ != jid),
        (best(live, types, now) matches Some(i) && live[i].jid@ == jid) ==> !cancel_ok(
            after_checkout(live, types, now),
            jid,
        ),
{
    if cancel_ok(live, jid) {
        let rest = after_cancel(live, jid);
        lemma_remove_wf(live, Seq::empty(), index_of(live, jid));
        if let Some(j) = best(rest, types, now) {
            lemma_best(rest, types, now);
            if rest[j].jid@ == jid {
                assert(has_id(rest, jid));
            }
        }
    }
    lemma_best(live, types, now);
    if let Some(i) = best(live, types, now) {
        if live[i].jid@ == jid {
            let after = after_checkout(live, types, now);
            lemma_after_checkout(live, types, now);
            lemma_index_of(after, jid, i);
        }
    }
}

/// Enqueueing a record and withdrawing it by id and type hands back its
/// payload, restores the queue, and leaves no record that checkout could
/// return under that id.
pub proof fn law_unschedule_round_trip(
    live: Seq<JobRecord>,
    rec: JobRecord,
    types: Seq<String>,
    now: i64,
)
    requires
        ids_unique(live),
        !has_id(live, rec.jid@),
        rec.is_waiting(),
    ensures
        ({
            let pushed = live.push(rec);
            &&& unschedule_ok(pushed, rec.jid@, rec.job_type@)
            &&& pushed[index_of(pushed, rec.jid@)].payload == rec.payload
            &&& after_unschedule(pushed, rec.jid@, rec.job_type@) == live
            &&& best(live, types, now) matches Some(j) ==> live[j].jid@ != rec.jid@
        }),
{
    let pushed = live.push(rec);
    let n = live.len() as int;
    assert forall|a: int, b: int|
        0 <= a < pushed.len() && 0 <= b < pushed.len() && a != b implies (#[trigger] pushed[a]).jid@
        != (#[trigger] pushed[b]).jid@ by {
        if a == n {
            assert(pushed[b] == live[b]);
        } else if b == n {
            assert(pushed[a] == live[a]);
        } else {
            assert(pushed[a] == live[a]);
            assert(pushed[b] == live[b]);
        }
    }
    lemma_index_of(pushed, rec.jid@, n);
    assert(pushed.remove(n) =~= live);
    lemma_best(live, types, now);
    if let Some(j) = best(live, types, now) {
        if live[j].jid@ == rec.jid@ {
            assert(has_id(live, rec.jid@));
        }
    }
}

} // verus!

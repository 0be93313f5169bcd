use vstd::prelude::*;

use crate::record::{JobRecord, QueueError};
use crate::select::{best, select_next};

verus! {

/// Some record of `s` carries the id `jid`.
pub open spec fn has_id(s: Seq<JobRecord>, jid: Seq<char>) -> bool {
    exists|i: int| 0 <= i < s.len() && (#[trigger] s[i]).jid@ == jid
}

/// Position of the record with id `jid` (meaningful where `has_id` holds).
pub open spec fn index_of(s: Seq<JobRecord>, jid: Seq<char>) -> int {
    choose|i: int| 0 <= i < s.len() && (#[trigger] s[i]).jid@ == jid
}

/// No two records of `s` share an id.
pub open spec fn ids_unique(s: Seq<JobRecord>) -> bool {
    forall|i: int, j: int|
        0 <= i < s.len() && 0 <= j < s.len() && i != j ==> (#[trigger] s[i]).jid@
            != (#[trigger] s[j]).jid@
}

/// No id occurs in both `a` and `b`.
pub open spec fn ids_disjoint(a: Seq<JobRecord>, b: Seq<JobRecord>) -> bool {
    forall|i: int, j: int|
        0 <= i < a.len() && 0 <= j < b.len() ==> (#[trigger] a[i]).jid@ != (#[trigger] b[j]).jid@
}

/// The live queue after a checkout at `now` by a poller for `types`.
pub open spec fn after_checkout(live: Seq<JobRecord>, types: Seq<String>, now: i64) -> Seq<
    JobRecord,
> {
    match best(live, types, now) {
        Some(i) => live.update(i, live[i].leased(now)),
        None => live,
    }
}

/// Cancellation of `jid` succeeds: the record exists and is waiting.
pub open spec fn cancel_ok(live: Seq<JobRecord>, jid: Seq<char>) -> bool {
    has_id(live, jid) && live[index_of(live, jid)].is_waiting()
}

/// The live queue after `cancel(jid)`.
pub open spec fn after_cancel(live: Seq<JobRecord>, jid: Seq<char>) -> Seq<JobRecord> {
    if cancel_ok(live, jid) {
        live.remove(index_of(live, jid))
    } else {
        live
    }
}

/// Withdrawal of `jid` as a job of type `t` succeeds.
pub open spec fn unschedule_ok(live: Seq<JobRecord>, jid: Seq<char>, t: Seq<char>) -> bool {
    cancel_ok(live, jid) && live[index_of(live, jid)].job_type@ == t
}

/// The live queue after `unschedule(jid, t)`.
pub open spec fn after_unschedule(live: Seq<JobRecord>, jid: Seq<char>, t: Seq<char>) -> Seq<
    JobRecord,
> {
    if unschedule_ok(live, jid, t) {
        live.remove(index_of(live, jid))
    } else {
        live
    }
}

/// The live queue after the lease on `jid` completes.
pub open spec fn after_complete(live: Seq<JobRecord>, jid: Seq<char>) -> Seq<JobRecord> {
    if has_id(live, jid) {
        live.remove(index_of(live, jid))
    } else {
        live
    }
}

/// The live queue after the lease on `jid` fails recoverably.
pub open spec fn after_fail(live: Seq<JobRecord>, jid: Seq<char>) -> Seq<JobRecord> {
    if has_id(live, jid) {
        live.update(index_of(live, jid), live[index_of(live, jid)].released())
    } else {
        live
    }
}

/// The position of a record with id `jid` in a sequence of unique ids is
/// the one `index_of` names.
pub proof fn lemma_index_of(s: Seq<JobRecord>, jid: Seq<char>, i: int)
    requires
        ids_unique(s),
        0 <= i < s.len(),
        s[i].jid@ == jid,
    ensures
        has_id(s, jid),
        index_of(s, jid) == i,
{
    assert(has_id(s, jid));
}

/// The live queue and the dead-letter store.
pub struct QueueState {
    pub live: Vec<JobRecord>,
    pub dead: Vec<JobRecord>,
}

/// An exclusive, single-use capability over one checked-out record; it holds
/// the record as checkout wrote it.
pub struct Lease {
    pub record: JobRecord,
}

impl QueueState {
    /// Ids are unique across both stores, and dead records are inert.
    pub open spec fn wf(&self) -> bool {
        &&& ids_unique(self.live@)
        &&& ids_unique(self.dead@)
        &&& ids_disjoint(self.live@, self.dead@)
        &&& forall|j: int| 0 <= j < self.dead@.len() ==> (#[trigger] self.dead@[j]).is_waiting()
    }

    /// An empty queue.
    pub fn new() -> (r: QueueState)
        ensures
            r.wf(),
            r.live@.len() == 0,
            r.dead@.len() == 0,
    {
        QueueState { live: Vec::new(), dead: Vec::new() }
    }

    /// Whether the id is taken in either store.
    pub fn contains_id(&self, jid: &String) -> (r: bool)
        ensures
            r == (has_id(self.live@, jid@) || has_id(self.dead@, jid@)),
    {
        position_of(&self.live, jid).is_some() || position_of(&self.dead, jid).is_some()
    }

    /// Persists a new waiting record under the fresh id `jid`.
    pub fn enqueue(
        &mut self,
        jid: String,
        job_type: String,
        payload: Vec<u8>,
        scheduled_at: i64,
        enqueued_at: i64,
        priority: i8,
    )
        requires
            old(self).wf(),
            !has_id(old(self).live@, jid@),
            !has_id(old(self).dead@, jid@),
        ensures
            final(self).wf(),
            final(self).dead@ == old(self).dead@,
            final(self).live@.len() == old(self).live@.len() + 1,
            final(self).live@.drop_last() == old(self).live@,
            ({
                let r = final(self).live@.last();
                &&& r.jid == jid
                &&& r.queue@ == crate::record::default_queue()
                &&& r.job_type == job_type
                &&& r.payload == payload
                &&& r.retries == 0
                &&& r.priority == priority as i64
                &&& r.scheduled_at == scheduled_at
                &&& r.enqueued_at == enqueued_at
                &&& r.started_at is None
            }),
    {
        let ghost jv = jid@;
        let rec = JobRecord::new_waiting(jid, job_type, payload, scheduled_at, enqueued_at, priority);
        self.live.push(rec);
        proof {
            assert(final(self).live@.drop_last() =~= old(self).live@);
            let n = old(self).live@.len() as int;
            assert forall|i: int| 0 <= i < n implies (#[trigger] self.live@[i]).jid@ != jv by {
                assert(self.live@[i] == old(self).live@[i]);
            }
            assert forall|j: int| 0 <= j < self.dead@.len() implies (#[trigger] self.dead@[j]).jid@
                != jv by {}
        }
    }

    /// Atomically selects the eligible record of highest priority, marks it
    /// leased at `now` with one more attempt counted, and hands out a lease
    /// on it; `None` when nothing is eligible.
    pub fn checkout(&mut self, types: &Vec<String>, now: i64) -> (r: Option<Lease>)
        requires
            old(self).wf(),
        ensures
            final(self).wf(),
            final(self).dead@ == old(self).dead@,
            final(self).live@ == after_checkout(old(self).live@, types@, now),
            r is None <==> best(old(self).live@, types@, now) is None,
            r matches Some(l) ==> {
                let i = best(old(self).live@, types@, now)->0;
                l.record.same_as(&old(self).live@[i].leased(now))
            },
    {
        match select_next(&self.live, types, now) {
            None => None,
            Some(i) => {
                let rec = self.live.remove(i);
                let rec = rec.lease_at(now);
                let snapshot = rec.duplicate();
                self.live.insert(i, rec);
                proof {
                    assert(self.live@ =~= old(self).live@.update(i as int, old(self).live@[i as int].leased(now)));
                    assert forall|a: int, b: int|
                        0 <= a < self.live@.len() && 0 <= b < self.live@.len() && a != b
                            implies (#[trigger] self.live@[a]).jid@ != (#[trigger] self.live@[b]).jid@ by {
                        assert(self.live@[a].jid@ == old(self).live@[a].jid@);
                        assert(self.live@[b].jid@ == old(self).live@[b].jid@);
                    }
                    assert forall|a: int, b: int|
                        0 <= a < self.live@.len() && 0 <= b < self.dead@.len()
                            implies (#[trigger] self.live@[a]).jid@ != (#[trigger] self.dead@[b]).jid@ by {
                        assert(self.live@[a].jid@ == old(self).live@[a].jid@);
                    }
                }
                Some(Lease { record: snapshot })
            },
        }
    }
}


impl QueueState {
    /// Deletes the waiting record `jid`; a leased or missing one is refused
    /// with `JobNotFound`.
    pub fn cancel(&mut self, jid: &String) -> (r: Result<(), QueueError>)
        requires
            old(self).wf(),
        ensures
            final(self).wf(),
            final(self).dead@ == old(self).dead@,
            final(self).live@ == after_cancel(old(self).live@, jid@),
            r is Ok <==> cancel_ok(old(self).live@, jid@),
            r is Err ==> (r matches Err(QueueError::JobNotFound(s)) && s@ == jid@),
    {
        match position_of(&self.live, jid) {
            Some(i) => {
                proof {
                    lemma_index_of(self.live@, jid@, i as int);
                }
                if self.live[i].started_at.is_none() {
                    proof {
                        lemma_remove_wf(self.live@, self.dead@, i as int);
                    }
                    let _ = self.live.remove(i);
                    Ok(())
                } else {
                    Err(QueueError::JobNotFound(jid.clone()))
                }
            },
            None => Err(QueueError::JobNotFound(jid.clone())),
        }
    }

    /// Withdraws the waiting record `jid` of type `job_type` and hands back
    /// its payload; refused with `JobNotFound` where no such record waits.
    pub fn unschedule(&mut self, jid: &String, job_type: &String) -> (r: Result<
        Vec<u8>,
        QueueError,
    >)
        requires
            old(self).wf(),
        ensures
            final(self).wf(),
            final(self).dead@ == old(self).dead@,
            final(self).live@ == after_unschedule(old(self).live@, jid@, job_type@),
            r is Ok <==> unschedule_ok(old(self).live@, jid@, job_type@),
            r matches Ok(p) ==> p@ == old(self).live@[index_of(old(self).live@, jid@)].payload@,
            r is Err ==> (r matches Err(QueueError::JobNotFound(s)) && s@ == jid@),
    {
        match position_of(&self.live, jid) {
            Some(i) => {
                proof {
                    lemma_index_of(self.live@, jid@, i as int);
                }
                if self.live[i].started_at.is_none() && self.live[i].job_type == *job_type {
                    proof {
                        lemma_remove_wf(self.live@, self.dead@, i as int);
                    }
                    let rec = self.live.remove(i);
                    Ok(rec.payload)
                } else {
                    Err(QueueError::JobNotFound(jid.clone()))
                }
            },
            None => Err(QueueError::JobNotFound(jid.clone())),
        }
    }
}

impl Lease {
    /// The job's id.
    pub fn id(&self) -> (r: String)
        ensures
            r@ == self.record.jid@,
    {
        self.record.jid.clone()
    }

    /// The tag naming the handler of this job.
    pub fn job_type(&self) -> (r: &str)
        ensures
            r@ == self.record.job_type@,
    {
        self.record.job_type.as_str()
    }

    /// The opaque payload bytes.
    pub fn payload(&self) -> (r: Vec<u8>)
        ensures
            r@ == self.record.payload@,
    {
        crate::record::copy_bytes(&self.record.payload)
    }

    /// The attempt count, this checkout included.
    pub fn retries(&self) -> (r: i64)
        ensures
            r == self.record.retries,
    {
        self.record.retries
    }

    /// Resolves the lease by deleting the record from the live queue.
    pub fn complete(self, store: &mut QueueState)
        requires
            old(store).wf(),
        ensures
            final(store).wf(),
            final(store).dead@ == old(store).dead@,
            final(store).live@ == after_complete(old(store).live@, self.record.jid@),
    {
        match position_of(&store.live, &self.record.jid) {
            Some(i) => {
                proof {
                    lemma_index_of(store.live@, self.record.jid@, i as int);
                    lemma_remove_wf(store.live@, store.dead@, i as int);
                }
                let _ = store.live.remove(i);
            },
            None => {},
        }
    }

    /// Resolves the lease by putting the record back in the waiting state,
    /// its attempt count kept.
    pub fn fail(self, store: &mut QueueState)
        requires
            old(store).wf(),
        ensures
            final(store).wf(),
            final(store).dead@ == old(store).dead@,
            final(store).live@ == after_fail(old(store).live@, self.record.jid@),
    {
        match position_of(&store.live, &self.record.jid) {
            Some(i) => {
                proof {
                    lemma_index_of(store.live@, self.record.jid@, i as int);
                }
                let ghost before = store.live@;
                let rec = store.live.remove(i);
                store.live.insert(i, rec.release());
                proof {
                    assert(store.live@ =~= before.update(i as int, before[i as int].released()));
                    lemma_update_wf(before, store.dead@, i as int, before[i as int].released());
                }
            },
            None => {},
        }
    }

    /// Resolves the lease by moving the record, in one step, from the live
    /// queue to the dead-letter store; where the record is gone the step is
    /// refused and both stores stay as they were.
    pub fn dead_queue(self, store: &mut QueueState) -> (r: Result<(), QueueError>)
        requires
            old(store).wf(),
        ensures
            final(store).wf(),
            r is Ok <==> has_id(old(store).live@, self.record.jid@),
            r is Ok ==> {
                let i = index_of(old(store).live@, self.record.jid@);
                &&& final(store).live@ == old(store).live@.remove(i)
                &&& final(store).dead@ == old(store).dead@.push(old(store).live@[i].dead_copy())
            },
            r is Err ==> *final(store) == *old(store),
            r is Err ==> (r matches Err(QueueError::JobNotFound(s)) && s@ == self.record.jid@),
    {
        match position_of(&store.live, &self.record.jid) {
            Some(i) => {
                proof {
                    lemma_index_of(store.live@, self.record.jid@, i as int);
                    lemma_remove_wf(store.live@, store.dead@, i as int);
                }
                let rec = store.live.remove(i);
                store.dead.push(rec.into_dead());
                Ok(())
            },
            None => Err(QueueError::JobNotFound(self.record.jid)),
        }
    }
}

/// Removing a record keeps ids unique and apart from the dead-letter store,
/// drops the removed id, and leaves room for its dead copy.
pub proof fn lemma_remove_wf(live: Seq<JobRecord>, dead: Seq<JobRecord>, i: int)
    requires
        ids_unique(live),
        ids_unique(dead),
        ids_disjoint(live, dead),
        0 <= i < live.len(),
    ensures
        ids_unique(live.remove(i)),
        ids_disjoint(live.remove(i), dead),
        !has_id(live.remove(i), live[i].jid@),
        ids_unique(dead.push(live[i].dead_copy())),
        ids_disjoint(live.remove(i), dead.push(live[i].dead_copy())),
{
    let rest = live.remove(i);
    let d2 = dead.push(live[i].dead_copy());
    assert forall|k: int| 0 <= k < rest.len() implies #[trigger] rest[k] == live[if k < i { k } else { k + 1 }] by {}
    assert forall|a: int, b: int|
        0 <= a < rest.len() && 0 <= b < rest.len() && a != b implies (#[trigger] rest[a]).jid@
        != (#[trigger] rest[b]).jid@ by {
        assert(rest[a] == live[if a < i { a } else { a + 1 }]);
        assert(rest[b] == live[if b < i { b } else { b + 1 }]);
    }
    assert forall|a: int, b: int| 0 <= a < rest.len() && 0 <= b < dead.len() implies (#[trigger] rest[a]).jid@
        != (#[trigger] dead[b]).jid@ by {
        assert(rest[a] == live[if a < i { a } else { a + 1 }]);
    }
    if has_id(rest, live[i].jid@) {
        let a = choose|a: int| 0 <= a < rest.len() && (#[trigger] rest[a]).jid@ == live[i].jid@;
        assert(rest[a] == live[if a < i { a } else { a + 1 }]);
    }
    assert forall|a: int, b: int|
        0 <= a < d2.len() && 0 <= b < d2.len() && a != b implies (#[trigger] d2[a]).jid@
        != (#[trigger] d2[b]).jid@ by {
        if a < dead.len() && b < dead.len() {
        } else if a < dead.len() {
            assert(live[i].jid@ != dead[a].jid@);
        } else if b < dead.len() {
            assert(live[i].jid@ != dead[b].jid@);
        }
    }
    assert forall|a: int, b: int| 0 <= a < rest.len() && 0 <= b < d2.len() implies (#[trigger] rest[a]).jid@
        != (#[trigger] d2[b]).jid@ by {
        assert(rest[a] == live[if a < i { a } else { a + 1 }]);
        if b < dead.len() {
        } else {
            assert(d2[b].jid@ == live[i].jid@);
        }
    }
}

/// Replacing a record by one with the same id keeps ids unique and apart
/// from the dead-letter store.
pub proof fn lemma_update_wf(live: Seq<JobRecord>, dead: Seq<JobRecord>, i: int, r: JobRecord)
    requires
        ids_unique(live),
        ids_disjoint(live, dead),
        0 <= i < live.len(),
        r.jid@ == live[i].jid@,
    ensures
        ids_unique(live.update(i, r)),
        ids_disjoint(live.update(i, r), dead),
{
    let s = live.update(i, r);
    assert forall|a: int, b: int|
        0 <= a < s.len() && 0 <= b < s.len() && a != b implies (#[trigger] s[a]).jid@
        != (#[trigger] s[b]).jid@ by {
        assert(s[a].jid@ == live[a].jid@);
        assert(s[b].jid@ == live[b].jid@);
    }
    assert forall|a: int, b: int| 0 <= a < s.len() && 0 <= b < dead.len() implies (#[trigger] s[a]).jid@
        != (#[trigger] dead[b]).jid@ by {
        assert(s[a].jid@ == live[a].jid@);
    }
}

/// Position of the record with id `jid` in `s`, if any.
pub fn position_of(s: &Vec<JobRecord>, jid: &String) -> (r: Option<usize>)
    ensures
        r matches Some(i) ==> i < s@.len() && s@[i as int].jid@ == jid@,
        r is None <==> !has_id(s@, jid@),
{
    let mut k: usize = 0;
    while k < s.len()
        invariant
            k <= s.len(),
            forall|j: int| 0 <= j < k ==> (#[trigger] s@[j]).jid@ != jid@,
        decreases s.len() - k,
    {
        if s[k].jid == *jid {
            return Some(k);
        }
        k = k + 1;
    }
    None
}

} // verus!

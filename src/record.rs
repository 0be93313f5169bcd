use vstd::prelude::*;
use vstd::string::StringExecFns;

verus! {

/// Name of the logical partition that every record of this queue lives in.
pub open spec fn default_queue() -> Seq<char> {
    seq!['d', 'e', 'f', 'a', 'u', 'l', 't']
}

/// One queued or leased job. Timestamps are milliseconds since the epoch;
/// `started_at` is the whole state machine: `None` is waiting, `Some` is leased.
pub struct JobRecord {
    pub jid: String,
    pub queue: String,
    pub job_type: String,
    pub payload: Vec<u8>,
    pub retries: i64,
    pub priority: i64,
    pub scheduled_at: i64,
    pub enqueued_at: i64,
    pub started_at: Option<i64>,
}

/// Errors of the store's operations.
pub enum QueueError {
    /// No record with this id in the state the operation needs.
    JobNotFound(String),
}

/// Whether `t` is one of the job types in `types`.
pub open spec fn type_listed(types: Seq<String>, t: Seq<char>) -> bool {
    exists|k: int| 0 <= k < types.len() && (#[trigger] types[k])@ == t
}

impl JobRecord {
    pub open spec fn is_waiting(&self) -> bool {
        self.started_at is None
    }

    /// A record may be checked out at `now` by a poller for `types`.
    pub open spec fn is_eligible(&self, types: Seq<String>, now: i64) -> bool {
        &&& self.started_at is None
        &&& self.queue@ == default_queue()
        &&& self.scheduled_at <= now
        &&& type_listed(types, self.job_type@)
    }

    /// The record after a checkout at `now`: leased, one more attempt counted
    /// (the count stays put only at the top of its range).
    pub open spec fn leased(self, now: i64) -> JobRecord {
        JobRecord {
            started_at: Some(now),
            retries: if self.retries < i64::MAX { (self.retries + 1) as i64 } else { self.retries },
            ..self
        }
    }

    /// The record after a recoverable failure: waiting again, count kept.
    pub open spec fn released(self) -> JobRecord {
        JobRecord { started_at: None, ..self }
    }

    /// The inert copy that the dead-letter store keeps.
    pub open spec fn dead_copy(self) -> JobRecord {
        JobRecord { started_at: None, priority: 0, ..self }
    }

    /// Whether two records agree on every field.
    pub open spec fn same_as(&self, o: &JobRecord) -> bool {
        &&& self.jid@ == o.jid@
        &&& self.queue@ == o.queue@
        &&& self.job_type@ == o.job_type@
        &&& self.payload@ == o.payload@
        &&& self.retries == o.retries
        &&& self.priority == o.priority
        &&& self.scheduled_at == o.scheduled_at
        &&& self.enqueued_at == o.enqueued_at
        &&& self.started_at == o.started_at
    }

    /// A fresh waiting record, as enqueue writes it.
    pub fn new_waiting(
        jid: String,
        job_type: String,
        payload: Vec<u8>,
        scheduled_at: i64,
        enqueued_at: i64,
        priority: i8,
    ) -> (r: JobRecord)
        ensures
            r.jid == jid,
            r.queue@ == default_queue(),
            r.job_type == job_type,
            r.payload == payload,
            r.retries == 0,
            r.priority == priority as i64,
            r.scheduled_at == scheduled_at,
            r.enqueued_at == enqueued_at,
            r.started_at is None,
    {
        let queue = String::from_str("default");
        proof {
            reveal_strlit("default");
            assert(queue@ =~= default_queue());
        }
        JobRecord {
            jid,
            queue,
            job_type,
            payload,
            retries: 0,
            priority: priority as i64,
            scheduled_at,
            enqueued_at,
            started_at: None,
        }
    }

    /// Whether this record may be checked out at `now` by a poller for `types`.
    pub fn eligible(&self, types: &Vec<String>, now: i64) -> (r: bool)
        ensures
            r == self.is_eligible(types@, now),
    {
        if self.started_at.is_some() || self.scheduled_at > now {
            return false;
        }
        let queue = String::from_str("default");
        proof {
            reveal_strlit("default");
            assert(queue@ =~= default_queue());
        }
        if !(self.queue == queue) {
            return false;
        }
        let mut k: usize = 0;
        while k < types.len()
            invariant
                k <= types.len(),
                self.started_at is None,
                self.scheduled_at <= now,
                self.queue@ == default_queue(),
                forall|j: int| 0 <= j < k ==> (#[trigger] types@[j])@ != self.job_type@,
            decreases types.len() - k,
        {
            if types[k] == self.job_type {
                proof {
                    assert(types@[k as int]@ == self.job_type@);
                }
                return true;
            }
            k = k + 1;
        }
        false
    }

    /// A field-for-field copy.
    pub fn duplicate(&self) -> (r: JobRecord)
        ensures
            r.same_as(self),
    {
        JobRecord {
            jid: self.jid.clone(),
            queue: self.queue.clone(),
            job_type: self.job_type.clone(),
            payload: copy_bytes(&self.payload),
            retries: self.retries,
            priority: self.priority,
            scheduled_at: self.scheduled_at,
            enqueued_at: self.enqueued_at,
            started_at: self.started_at,
        }
    }

    /// Marks the record leased at `now` and counts the attempt.
    pub fn lease_at(self, now: i64) -> (r: JobRecord)
        ensures
            r == self.leased(now),
    {
        let retries = if self.retries < i64::MAX { self.retries + 1 } else { self.retries };
        JobRecord { started_at: Some(now), retries, ..self }
    }

    /// Puts a leased record back in the waiting state.
    pub fn release(self) -> (r: JobRecord)
        ensures
            r == self.released(),
    {
        JobRecord { started_at: None, ..self }
    }

    /// The record that the dead-letter store keeps for this one.
    pub fn into_dead(self) -> (r: JobRecord)
        ensures
            r == self.dead_copy(),
    {
        JobRecord { started_at: None, priority: 0, ..self }
    }
}

/// A byte-for-byte copy of `v`.
pub fn copy_bytes(v: &Vec<u8>) -> (r: Vec<u8>)
    ensures
        r@ == v@,
{
    let mut r: Vec<u8> = Vec::with_capacity(v.len());
    let mut i: usize = 0;
    while i < v.len()
        invariant
            i <= v.len(),
            r@ == v@.subrange(0, i as int),
        decreases v.len() - i,
    {
        r.push(v[i]);
        i = i + 1;
        proof {
            assert(r@ =~= v@.subrange(0, i as int));
        }
    }
    proof {
        assert(r@ =~= v@);
    }
    r
}

} // verus!

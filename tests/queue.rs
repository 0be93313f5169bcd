use adc_mongodb::record::{JobRecord, QueueError};
use adc_mongodb::select::select_next;
use adc_mongodb::state::QueueState;

fn s(x: &str) -> String {
    x.to_string()
}

fn types(xs: &[&str]) -> Vec<String> {
    xs.iter().map(|x| x.to_string()).collect()
}

fn enqueue(q: &mut QueueState, jid: &str, job_type: &str, payload: &[u8], at: i64, prio: i8) {
    assert!(!q.contains_id(&s(jid)));
    q.enqueue(s(jid), s(job_type), payload.to_vec(), at, 0, prio);
}

#[test]
fn enqueue_writes_waiting_record() {
    let mut q = QueueState::new();
    enqueue(&mut q, "a", "email", &[1, 2, 3], 10, -3);
    assert_eq!(q.live.len(), 1);
    let r = &q.live[0];
    assert_eq!(r.jid, "a");
    assert_eq!(r.queue, "default");
    assert_eq!(r.job_type, "email");
    assert_eq!(r.payload, vec![1, 2, 3]);
    assert_eq!(r.retries, 0);
    assert_eq!(r.priority, -3);
    assert_eq!(r.scheduled_at, 10);
    assert_eq!(r.started_at, None);
    assert!(q.contains_id(&s("a")));
    assert!(!q.contains_id(&s("b")));
}

#[test]
fn checkout_on_empty_queue_is_none() {
    let mut q = QueueState::new();
    assert!(q.checkout(&types(&["email"]), 100).is_none());
}

#[test]
fn single_record_leased_once() {
    let mut q = QueueState::new();
    enqueue(&mut q, "a", "email", &[7], 0, 0);
    let first = q.checkout(&types(&["email"]), 5).expect("one eligible record");
    assert_eq!(first.id(), "a");
    assert_eq!(first.retries(), 1);
    assert_eq!(q.live[0].started_at, Some(5));
    for now in [5, 6, 1000] {
        assert!(q.checkout(&types(&["email"]), now).is_none());
    }
}

#[test]
fn checkouts_follow_priority() {
    let mut q = QueueState::new();
    enqueue(&mut q, "p5", "t", &[5], 0, 5);
    enqueue(&mut q, "p1", "t", &[1], 0, 1);
    enqueue(&mut q, "p9", "t", &[9], 0, 9);
    let order: Vec<String> = (0..3)
        .map(|_| q.checkout(&types(&["t"]), 10).unwrap().id())
        .collect();
    assert_eq!(order, vec![s("p9"), s("p5"), s("p1")]);
    assert!(q.checkout(&types(&["t"]), 10).is_none());
}

#[test]
fn equal_priorities_go_in_queue_order() {
    let mut q = QueueState::new();
    enqueue(&mut q, "x", "t", &[], 0, 2);
    enqueue(&mut q, "y", "t", &[], 0, 2);
    assert_eq!(q.checkout(&types(&["t"]), 0).unwrap().id(), "x");
    assert_eq!(q.checkout(&types(&["t"]), 0).unwrap().id(), "y");
}

#[test]
fn future_record_waits_for_its_time() {
    let mut q = QueueState::new();
    enqueue(&mut q, "later", "t", &[], 100, 0);
    assert!(q.checkout(&types(&["t"]), 99).is_none());
    let l = q.checkout(&types(&["t"]), 100).unwrap();
    assert_eq!(l.id(), "later");
}

#[test]
fn job_type_filter_applies() {
    let mut q = QueueState::new();
    enqueue(&mut q, "a", "email", &[], 0, 0);
    assert!(q.checkout(&types(&["sms"]), 10).is_none());
    assert!(q.checkout(&types(&[]), 10).is_none());
    assert_eq!(q.checkout(&types(&["sms", "email"]), 10).unwrap().job_type(), "email");
}

#[test]
fn other_queue_is_not_eligible() {
    let r = JobRecord {
        jid: s("a"),
        queue: s("other"),
        job_type: s("t"),
        payload: vec![],
        retries: 0,
        priority: 0,
        scheduled_at: 0,
        enqueued_at: 0,
        started_at: None,
    };
    assert!(!r.eligible(&types(&["t"]), 10));
    let live = vec![r];
    assert_eq!(select_next(&live, &types(&["t"]), 10), None);
}

#[test]
fn retries_count_each_lease() {
    let mut q = QueueState::new();
    enqueue(&mut q, "a", "t", &[4, 2], 0, 0);
    for attempt in 1..=5 {
        let l = q.checkout(&types(&["t"]), attempt).unwrap();
        assert_eq!(l.retries(), attempt);
        assert_eq!(l.payload(), vec![4, 2]);
        l.fail(&mut q);
        assert_eq!(q.live[0].retries, attempt);
        assert_eq!(q.live[0].started_at, None);
        assert_eq!(q.live[0].scheduled_at, 0);
    }
}

#[test]
fn retries_stay_at_the_top_of_their_range() {
    let r = JobRecord {
        jid: s("a"),
        queue: s("default"),
        job_type: s("t"),
        payload: vec![],
        retries: i64::MAX,
        priority: 0,
        scheduled_at: 0,
        enqueued_at: 0,
        started_at: None,
    };
    let l = r.lease_at(3);
    assert_eq!(l.retries, i64::MAX);
    assert_eq!(l.started_at, Some(3));
}

#[test]
fn complete_removes_record() {
    let mut q = QueueState::new();
    enqueue(&mut q, "a", "t", &[], 0, 0);
    enqueue(&mut q, "b", "t", &[], 0, 0);
    let l = q.checkout(&types(&["t"]), 0).unwrap();
    l.complete(&mut q);
    assert_eq!(q.live.len(), 1);
    assert_eq!(q.live[0].jid, "b");
    assert!(q.dead.is_empty());
}

#[test]
fn dead_letter_moves_record() {
    let mut q = QueueState::new();
    enqueue(&mut q, "a", "t", &[9, 9], 3, 7);
    let l = q.checkout(&types(&["t"]), 4).unwrap();
    assert!(l.dead_queue(&mut q).is_ok());
    assert!(q.live.is_empty());
    assert_eq!(q.dead.len(), 1);
    let d = &q.dead[0];
    assert_eq!(d.jid, "a");
    assert_eq!(d.payload, vec![9, 9]);
    assert_eq!(d.retries, 1);
    assert_eq!(d.scheduled_at, 3);
    assert_eq!(d.started_at, None);
    assert_eq!(d.priority, 0);
    assert!(q.contains_id(&s("a")));
    assert!(q.checkout(&types(&["t"]), 100).is_none());
}

#[test]
fn dead_letter_refused_leaves_stores_alone() {
    let mut q = QueueState::new();
    enqueue(&mut q, "a", "t", &[], 0, 0);
    let l = q.checkout(&types(&["t"]), 0).unwrap();
    let l2 = adc_mongodb::state::Lease { record: l.record.duplicate() };
    l.complete(&mut q);
    match l2.dead_queue(&mut q) {
        Err(QueueError::JobNotFound(id)) => assert_eq!(id, "a"),
        _ => panic!("expected JobNotFound"),
    }
    assert!(q.live.is_empty());
    assert!(q.dead.is_empty());
}

#[test]
fn cancel_before_checkout_wins() {
    let mut q = QueueState::new();
    enqueue(&mut q, "a", "t", &[], 0, 0);
    assert!(q.cancel(&s("a")).is_ok());
    assert!(q.checkout(&types(&["t"]), 10).is_none());
}

#[test]
fn checkout_before_cancel_wins() {
    let mut q = QueueState::new();
    enqueue(&mut q, "a", "t", &[], 0, 0);
    let l = q.checkout(&types(&["t"]), 10).unwrap();
    assert_eq!(l.id(), "a");
    match q.cancel(&s("a")) {
        Err(QueueError::JobNotFound(id)) => assert_eq!(id, "a"),
        _ => panic!("expected JobNotFound"),
    }
    assert_eq!(q.live.len(), 1);
}

#[test]
fn cancel_unknown_id() {
    let mut q = QueueState::new();
    assert!(matches!(q.cancel(&s("nope")), Err(QueueError::JobNotFound(_))));
}

#[test]
fn unschedule_round_trip() {
    let mut q = QueueState::new();
    enqueue(&mut q, "keep", "t", &[0], 0, 0);
    enqueue(&mut q, "a", "t", &[1, 2, 3], 0, 9);
    assert_eq!(q.unschedule(&s("a"), &s("t")).ok(), Some(vec![1, 2, 3]));
    assert_eq!(q.checkout(&types(&["t"]), 10).unwrap().id(), "keep");
    assert!(q.checkout(&types(&["t"]), 10).is_none());
}

#[test]
fn unschedule_wrong_type_or_leased() {
    let mut q = QueueState::new();
    enqueue(&mut q, "a", "t", &[1], 0, 0);
    assert!(matches!(q.unschedule(&s("a"), &s("u")), Err(QueueError::JobNotFound(_))));
    let _l = q.checkout(&types(&["t"]), 0).unwrap();
    assert!(matches!(q.unschedule(&s("a"), &s("t")), Err(QueueError::JobNotFound(_))));
    assert_eq!(q.live.len(), 1);
}

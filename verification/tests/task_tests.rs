use punch::ids::{GorillaId, TaskId};
use punch::tasks::{new_task, new_task_at, TaskError, TaskPriority, TaskQueue, TaskResult, TaskState};

const NOW: i64 = 1_700_000_000_000;

#[test]
fn task_id_display() {
    let id = TaskId::new();
    let s = id.to_string();
    assert!(!s.is_empty());
    assert_eq!(s.len(), 36);
}

#[test]
fn task_id_default() {
    let id = TaskId::default();
    assert_ne!(id.0, 0);
}

#[test]
fn task_queue_default() {
    let queue = TaskQueue::default();
    assert_eq!(queue.pending_count(), 0);
    assert_eq!(queue.running_count(), 0);
}

#[test]
fn new_task_helper() {
    let gid = GorillaId::new();
    let task = new_task(gid, "test");
    assert_eq!(task.gorilla_id, gid);
    assert_eq!(task.description, "test");
    assert_eq!(task.priority, TaskPriority::Normal);
    assert_eq!(task.state, TaskState::Pending);
    assert!(task.depends_on.is_empty());
    assert!(task.dedup_key.is_none());
    assert!(task.result.is_none());
}

#[test]
fn queue_serves_highest_priority_first() {
    let gid = GorillaId::new();
    let mut q = TaskQueue::new();
    let mut low = new_task_at(gid, "low", NOW);
    low.priority = TaskPriority::Low;
    let mut crit = new_task_at(gid, "critical", NOW);
    crit.priority = TaskPriority::Critical;
    let normal = new_task_at(gid, "normal", NOW);
    q.submit(low).unwrap();
    q.submit(normal).unwrap();
    let crit_id = q.submit(crit).unwrap();
    assert_eq!(q.pending_count(), 3);
    let first = q.dequeue_at(NOW).unwrap();
    assert_eq!(first.id, crit_id);
    assert_eq!(first.state, TaskState::Running);
    assert_eq!(q.running_count(), 1);
    assert_eq!(q.dequeue_at(NOW).unwrap().description, "normal");
    assert_eq!(q.dequeue_at(NOW).unwrap().description, "low");
    assert!(q.dequeue_at(NOW).is_none());
}

#[test]
fn dedup_key_refuses_second_task_until_completion() {
    let gid = GorillaId::new();
    let mut q = TaskQueue::new();
    let mut a = new_task_at(gid, "a", NOW);
    a.dedup_key = Some("k".to_string());
    let mut b = new_task_at(gid, "b", NOW);
    b.dedup_key = Some("k".to_string());
    let a_id = q.submit(a).unwrap();
    assert!(matches!(q.submit(b), Err(TaskError::Duplicate { .. })));
    q.dequeue_at(NOW).unwrap();
    let done = TaskResult { success: true, output: "ok".to_string(), error: None, completed_at: NOW };
    q.complete(&a_id, done).unwrap();
    let mut c = new_task_at(gid, "c", NOW);
    c.dedup_key = Some("k".to_string());
    assert!(q.submit(c).is_ok());
}

#[test]
fn dependent_task_waits_for_dependency() {
    let gid = GorillaId::new();
    let mut q = TaskQueue::new();
    let first = new_task_at(gid, "first", NOW);
    let first_id = q.submit(first).unwrap();
    let mut second = new_task_at(gid, "second", NOW);
    second.depends_on = vec![first_id];
    second.priority = TaskPriority::Critical;
    q.submit(second).unwrap();
    // The critical task is blocked by its dependency, so the other one runs.
    assert_eq!(q.dequeue_at(NOW).unwrap().id, first_id);
    assert!(q.dequeue_at(NOW).is_none());
    let done = TaskResult { success: true, output: String::new(), error: None, completed_at: NOW };
    q.complete(&first_id, done).unwrap();
    assert_eq!(q.dequeue_at(NOW).unwrap().description, "second");
}

#[test]
fn cancel_and_unknown_task_errors() {
    let gid = GorillaId::new();
    let mut q = TaskQueue::new();
    let id = q.submit(new_task_at(gid, "x", NOW)).unwrap();
    q.cancel(&id).unwrap();
    assert_eq!(q.get(&id).unwrap().state, TaskState::Cancelled);
    assert_eq!(q.pending_count(), 0);
    let missing = TaskId::new();
    assert!(matches!(q.cancel(&missing), Err(TaskError::NotFound(_))));
}

#[test]
fn running_task_times_out() {
    let gid = GorillaId::new();
    let mut q = TaskQueue::new();
    let mut t = new_task_at(gid, "slow", NOW);
    t.timeout = Some(punch::duration::Duration::from_secs(10));
    let id = q.submit(t).unwrap();
    q.dequeue_at(NOW).unwrap();
    assert!(q.check_timeouts_at(NOW + 9_000).is_empty());
    assert_eq!(q.check_timeouts_at(NOW + 11_000), vec![id]);
    assert_eq!(q.get(&id).unwrap().state, TaskState::TimedOut);
    assert_eq!(q.list_for_gorilla(&gid).len(), 1);
}

#[test]
fn submit_batch_accepts_all_in_order() {
    let mut q = TaskQueue::new();
    let gid = GorillaId::new();
    let a = new_task_at(gid, "a", NOW);
    let b = new_task_at(gid, "b", NOW);
    let ids = vec![a.id, b.id];
    assert_eq!(q.submit_batch(vec![a, b]).unwrap(), ids);
    assert_eq!(q.pending_count(), 2);
}

#[test]
fn submit_batch_stops_at_first_duplicate() {
    let mut q = TaskQueue::new();
    let gid = GorillaId::new();
    let mut a = new_task_at(gid, "a", NOW);
    a.dedup_key = Some("k".to_string());
    let mut b = new_task_at(gid, "b", NOW);
    b.dedup_key = Some("k".to_string());
    let c = new_task_at(gid, "c", NOW);
    let a_id = a.id;
    let c_id = c.id;
    let r = q.submit_batch(vec![a, b, c]);
    match r {
        Err(TaskError::Duplicate { key, existing }) => {
            assert_eq!(key, "k");
            assert_eq!(existing, a_id);
        }
        other => panic!("expected a duplicate, got {other:?}"),
    }
    assert_eq!(q.pending_count(), 1);
    assert!(q.get(&c_id).is_none());
}

#[test]
fn task_id_text_is_hyphenated_lower_case_hex() {
    let id = TaskId(0x0123_4567_89ab_cdef_0123_4567_89ab_cdef);
    assert_eq!(id.to_string(), "01234567-89ab-cdef-0123-456789abcdef");
    assert_eq!(TaskId(1).to_string(), "00000000-0000-0000-0000-000000000001");
}

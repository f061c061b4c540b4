use spsc_hazard::{critical, later_drop, try_delete_local, GarbageQueue, Quiescence};

#[test]
fn critical_returns_body_result_and_restores_counter() {
    let mut q = Quiescence::new();
    assert!(q.is_quiescent());
    let r = critical(&mut q, |_| 40 + 2);
    assert_eq!(r, 42);
    assert!(q.is_quiescent());
}

#[test]
fn later_drop_releases_at_once_when_quiescent() {
    let q = Quiescence::new();
    let mut queue = GarbageQueue::new();
    let released = later_drop(&q, &mut queue, 5u32);
    assert_eq!(released, vec![5]);
    assert_eq!(queue.len(), 0);
}

#[test]
fn open_section_defers_release() {
    let mut q = Quiescence::new();
    let mut queue = GarbageQueue::new();
    q.enter();
    assert!(later_drop(&q, &mut queue, 1u32).is_empty());
    q.enter();
    assert!(later_drop(&q, &mut queue, 2u32).is_empty());
    assert_eq!(try_delete_local(&q, &mut queue), Err(()));
    q.leave();
    assert_eq!(try_delete_local(&q, &mut queue), Err(()));
    assert_eq!(queue.len(), 2);
    q.leave();
    assert_eq!(try_delete_local(&q, &mut queue), Ok(vec![1, 2]));
}

#[test]
fn released_exactly_once() {
    let mut q = Quiescence::new();
    let mut queue = GarbageQueue::new();
    q.enter();
    assert!(later_drop(&q, &mut queue, 10u32).is_empty());
    assert!(later_drop(&q, &mut queue, 11u32).is_empty());
    q.leave();
    let released = later_drop(&q, &mut queue, 12u32);
    assert_eq!(released, vec![10, 11, 12]);
    assert_eq!(try_delete_local(&q, &mut queue), Ok(vec![]));
    assert_eq!(try_delete_local(&q, &mut queue), Ok(vec![]));
    assert_eq!(queue.len(), 0);
}

#[test]
fn try_delete_on_empty_queue() {
    let mut q = Quiescence::new();
    let mut queue: GarbageQueue<String> = GarbageQueue::new();
    assert_eq!(try_delete_local(&q, &mut queue), Ok(vec![]));
    q.enter();
    assert_eq!(try_delete_local(&q, &mut queue), Err(()));
}

#[test]
fn finish_waits_for_quiescence() {
    let mut q = Quiescence::new();
    let mut queue = GarbageQueue::new();
    q.enter();
    assert!(later_drop(&q, &mut queue, 'a').is_empty());
    assert!(later_drop(&q, &mut queue, 'b').is_empty());
    let queue = match queue.finish(&q) {
        Ok(_) => panic!("released inside a critical section"),
        Err(back) => back,
    };
    assert_eq!(queue.len(), 2);
    q.leave();
    match queue.finish(&q) {
        Ok(released) => assert_eq!(released, vec!['a', 'b']),
        Err(_) => panic!("not released once quiescent"),
    }
}

#[test]
fn nested_critical_sections() {
    let mut q = Quiescence::new();
    let mut queue = GarbageQueue::new();
    let outer = critical(&mut q, |_| 1u8);
    q.enter();
    let inner = critical(&mut q, |_| 2u8);
    assert!(!q.is_quiescent());
    assert!(later_drop(&q, &mut queue, outer + inner).is_empty());
    q.leave();
    assert_eq!(try_delete_local(&q, &mut queue), Ok(vec![3u8]));
}

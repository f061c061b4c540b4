use spsc_hazard::{later_drop, try_delete_local, GarbageQueue, HazardPtr, Quiescence};
use std::sync::atomic::Ordering;

#[test]
fn load_hands_address_to_visitor() {
    let mut q = Quiescence::new();
    let slot = HazardPtr::new(64);
    let seen = slot.load(&mut q, Ordering::Acquire, |a, _| a + 1);
    assert_eq!(seen, 65);
    assert!(q.is_quiescent());
}

#[test]
fn store_then_load() {
    let mut q = Quiescence::new();
    let mut slot = HazardPtr::new(8);
    slot.store(16, Ordering::Release);
    assert_eq!(slot.load(&mut q, Ordering::SeqCst, |a, _| a), 16);
}

#[test]
fn swap_hands_previous_address() {
    let mut q = Quiescence::new();
    let mut slot = HazardPtr::new(8);
    let prev = slot.swap(&mut q, 24, Ordering::AcqRel, |a, _| a);
    assert_eq!(prev, 8);
    assert_eq!(slot.load(&mut q, Ordering::SeqCst, |a, _| a), 24);
}

#[test]
fn compare_and_swap_matches_and_mismatches() {
    let mut q = Quiescence::new();
    let mut slot = HazardPtr::new(8);
    assert_eq!(slot.compare_and_swap(&mut q, 4, 32, Ordering::SeqCst, |a, _| a), 8);
    assert_eq!(slot.load(&mut q, Ordering::SeqCst, |a, _| a), 8);
    assert_eq!(slot.compare_and_swap(&mut q, 8, 32, Ordering::SeqCst, |a, _| a), 8);
    assert_eq!(slot.load(&mut q, Ordering::SeqCst, |a, _| a), 32);
}

#[test]
fn compare_exchange_reports_outcome() {
    let mut q = Quiescence::new();
    let mut slot = HazardPtr::new(8);
    let r = slot.compare_exchange(&mut q, 4, 32, Ordering::SeqCst, Ordering::Relaxed, |r, _| r);
    assert_eq!(r, Err(8));
    let r = slot.compare_exchange(&mut q, 8, 32, Ordering::SeqCst, Ordering::Relaxed, |r, _| r);
    assert_eq!(r, Ok(8));
    assert_eq!(slot.load(&mut q, Ordering::SeqCst, |a, _| a), 32);
}

#[test]
fn compare_exchange_weak_retried_succeeds() {
    let mut q = Quiescence::new();
    let mut slot = HazardPtr::new(8);
    assert_eq!(
        slot.compare_exchange_weak(&mut q, 4, 32, Ordering::SeqCst, Ordering::Relaxed, |r, _| r),
        Err(8)
    );
    loop {
        let r = slot.compare_exchange_weak(&mut q, 8, 32, Ordering::SeqCst, Ordering::Relaxed, |r, _| r);
        if r.is_ok() {
            assert_eq!(r, Ok(8));
            break;
        }
        assert_eq!(r, Err(8));
    }
    assert_eq!(slot.load(&mut q, Ordering::SeqCst, |a, _| a), 32);
}

#[test]
fn scheduling_inside_a_read_waits_for_it() {
    let mut q = Quiescence::new();
    let slot = HazardPtr::new(96);
    let mut queue = GarbageQueue::new();
    let released = slot.load(&mut q, Ordering::Acquire, |a, inside| {
        assert!(!inside.is_quiescent());
        later_drop(inside, &mut queue, a)
    });
    assert!(released.is_empty());
    assert_eq!(queue.len(), 1);
    assert_eq!(try_delete_local(&q, &mut queue), Ok(vec![96]));
}

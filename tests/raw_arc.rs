use ringmpsc::RawArc;
use std::sync::atomic::{AtomicUsize, Ordering};
use std::sync::Arc;

#[test]
fn test_basic_usage() {
    let arc = RawArc::new(42u64);
    assert_eq!(*arc.get(), 42);
    assert_eq!(arc.ref_count(), 1);
}

#[test]
fn test_clone() {
    let arc1 = RawArc::new(42u64);
    let arc2 = arc1.clone();
    assert_eq!(*arc1.get(), 42);
    assert_eq!(*arc2.get(), 42);
    assert_eq!(arc1.ref_count(), 2);
    drop(arc2);
    assert_eq!(arc1.ref_count(), 1);
}

fn assert_send_sync<T: Send + Sync>() {}

#[test]
fn test_send_sync() {
    assert_send_sync::<RawArc<u64>>();
}

struct Payload {
    drops: Arc<AtomicUsize>,
}

impl Drop for Payload {
    fn drop(&mut self) {
        self.drops.fetch_add(1, Ordering::SeqCst);
    }
}

#[test]
fn payload_destroyed_once_after_last_drop() {
    let drops = Arc::new(AtomicUsize::new(0));
    let original = RawArc::new(Payload { drops: drops.clone() });
    let mut clones = Vec::new();
    for _ in 0..5 {
        clones.push(original.clone());
    }
    assert_eq!(original.ref_count(), 6);
    drop(original);
    while let Some(c) = clones.pop() {
        assert_eq!(drops.load(Ordering::SeqCst), 0);
        drop(c);
    }
    assert_eq!(drops.load(Ordering::SeqCst), 1);
}

#[test]
fn payload_outlives_the_original_handle() {
    let drops = Arc::new(AtomicUsize::new(0));
    let original = RawArc::new(Payload { drops: drops.clone() });
    let a = original.clone();
    let b = a.clone();
    drop(a);
    assert_eq!(original.ref_count(), 2);
    drop(original);
    assert_eq!(b.ref_count(), 1);
    assert_eq!(drops.load(Ordering::SeqCst), 0);
    drop(b);
    assert_eq!(drops.load(Ordering::SeqCst), 1);
}

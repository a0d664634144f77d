use ringmpsc::{Reservation, Ring};

fn push(ring: &mut Ring<u64>, value: u64) {
    ring.reserve(1).unwrap();
    ring.write(0, value);
    ring.commit(1);
}

#[test]
fn new_ring_is_empty_and_open() {
    let ring: Ring<u64> = Ring::new(3);
    assert_eq!(ring.capacity(), 8);
    assert!(ring.is_empty());
    assert!(!ring.is_closed());
}

#[test]
fn reserve_on_empty_ring_starts_at_slot_zero() {
    let mut ring: Ring<u64> = Ring::new(4);
    assert_eq!(ring.reserve(5), Some(Reservation { start: 0, len: 5 }));
    assert_eq!(ring.reserve(16), Some(Reservation { start: 0, len: 16 }));
    assert_eq!(ring.reserve(17), None);
}

#[test]
fn peek_on_empty_ring_is_empty_run() {
    let mut ring: Ring<u64> = Ring::new(2);
    let (_, len) = ring.peek();
    assert_eq!(len, 0);
    let mut out = Vec::new();
    assert_eq!(ring.consume_batch(&mut out), 0);
    assert!(out.is_empty());
}

#[test]
fn capacity_four_scenario() {
    let mut ring: Ring<u64> = Ring::new(2);
    for i in 0..4u64 {
        let r = ring.reserve(1).unwrap();
        assert_eq!(r, Reservation { start: i as usize, len: 1 });
        ring.write(0, 100 + i);
        ring.commit(1);
    }
    assert!(ring.reserve(1).is_none());

    let (start, len) = ring.peek();
    assert_eq!((start, len), (0, 4));
    assert_eq!(*ring.slot(start), 100);
    ring.advance(1);

    let r = ring.reserve(1).unwrap();
    assert_eq!(r, Reservation { start: 0, len: 1 });
    // The freed slot still holds what was written there before the overwrite.
    assert_eq!(*ring.slot(0), 100);
    ring.write(0, 200);
    ring.commit(1);
    assert_eq!(*ring.slot(0), 200);

    let mut out = Vec::new();
    assert_eq!(ring.consume_batch(&mut out), 4);
    assert_eq!(out, vec![101, 102, 103, 200]);
}

#[test]
fn wraparound_routes_into_low_slots() {
    let capacity: u64 = 8;
    let mut ring: Ring<u64> = Ring::new(3);
    let mut seen = Vec::new();
    for i in 0..capacity + 5 {
        let r = ring.reserve(1).unwrap();
        assert_eq!(r.start as u64, i % capacity);
        ring.write(0, 1000 + i);
        ring.commit(1);
        if i >= capacity {
            assert_eq!(*ring.slot((i - capacity) as usize), 1000 + i);
        }
        let (start, len) = ring.peek();
        assert_eq!(len, 1);
        seen.push(*ring.slot(start));
        ring.advance(1);
    }
    let expected: Vec<u64> = (0..capacity + 5).map(|i| 1000 + i).collect();
    assert_eq!(seen, expected);
}

#[test]
fn reservation_is_cut_at_the_physical_end() {
    let mut ring: Ring<u64> = Ring::new(3);
    for i in 0..6u64 {
        push(&mut ring, i);
    }
    let mut out = Vec::new();
    assert_eq!(ring.consume_batch(&mut out), 6);
    // The tail now sits at slot 6 = capacity - 2.
    assert_eq!(ring.reserve(3), Some(Reservation { start: 6, len: 2 }));
    ring.write(0, 60);
    ring.write(1, 61);
    ring.write(2, 62);
    ring.commit(3);
    let (start, len) = ring.peek();
    assert_eq!((start, len), (6, 2));
    assert_eq!(*ring.slot(0), 62);
    ring.advance(2);
    let (start, len) = ring.peek();
    assert_eq!((start, len), (0, 1));
    out.clear();
    assert_eq!(ring.consume_batch(&mut out), 1);
    assert_eq!(out, vec![62]);
}

#[test]
fn consume_batch_crosses_the_physical_end() {
    let mut ring: Ring<u64> = Ring::new(2);
    for i in 0..3u64 {
        push(&mut ring, i);
    }
    let mut out = Vec::new();
    ring.consume_batch(&mut out);
    for i in 3..7u64 {
        push(&mut ring, i);
    }
    out.clear();
    assert_eq!(ring.consume_batch(&mut out), 4);
    assert_eq!(out, vec![3, 4, 5, 6]);
}

#[test]
fn close_then_drain_sees_every_item() {
    let mut ring: Ring<u64> = Ring::new(7);
    for i in 0..100u64 {
        push(&mut ring, i);
    }
    ring.close();
    let mut out = Vec::new();
    let mut polls = 0;
    loop {
        polls += 1;
        assert!(polls < 10);
        let n = ring.consume_batch(&mut out);
        if n == 0 && ring.is_closed() && ring.is_empty() {
            break;
        }
    }
    assert_eq!(out.len(), 100);
    let expected: Vec<u64> = (0..100).collect();
    assert_eq!(out, expected);
}

#[test]
fn interleaved_producer_and_consumer_keep_order() {
    let mut ring: Ring<u64> = Ring::new(2);
    let mut next: u64 = 0;
    let mut out = Vec::new();
    for round in 0..20u64 {
        let burst = round % 4 + 1;
        for _ in 0..burst {
            if ring.reserve(1).is_some() {
                ring.write(0, next);
                ring.commit(1);
                next += 1;
            }
        }
        let (start, len) = ring.peek();
        if len > 0 {
            out.push(*ring.slot(start));
            ring.advance(1);
        }
    }
    ring.consume_batch(&mut out);
    let expected: Vec<u64> = (0..next).collect();
    assert_eq!(out, expected);
}

use ringmpsc::StackRing;

#[test]
fn test_new() {
    let ring: StackRing<u64, 64> = StackRing::new();
    assert!(ring.is_empty());
    assert!(!ring.is_closed());
}

#[test]
fn test_reserve_commit_peek_advance() {
    let mut ring: StackRing<u32, 64> = StackRing::new();

    // Reserve and write
    let res = ring.reserve(1).unwrap();
    assert_eq!(res.len, 1);
    ring.write(0, 42);
    ring.commit(1);

    // Peek and read
    let (start, len) = ring.peek();
    assert_eq!(len, 1);
    assert_eq!(*ring.slot(start), 42);
    ring.advance(1);

    // Should be empty
    assert!(ring.is_empty());
}

#[test]
fn test_full_ring() {
    let mut ring: StackRing<u32, 4> = StackRing::new();

    // Fill the ring
    for i in 0..4 {
        let _ = ring.reserve(1).unwrap();
        ring.write(0, i);
        ring.commit(1);
    }

    // Should be full now
    assert!(ring.reserve(1).is_none());

    // Drain one
    let (start, _) = ring.peek();
    assert_eq!(*ring.slot(start), 0);
    ring.advance(1);

    // Now we can write again
    assert!(ring.reserve(1).is_some());
}

#[test]
fn stack_ring_consume_batch_in_order() {
    let mut ring: StackRing<u32, 8> = StackRing::new();
    for i in 0..5u32 {
        ring.reserve(1).unwrap();
        ring.write(0, 10 + i);
        ring.commit(1);
    }
    let mut out = Vec::new();
    assert_eq!(ring.consume_batch(&mut out), 5);
    assert_eq!(out, vec![10, 11, 12, 13, 14]);
    assert!(ring.is_empty());
    assert_eq!(ring.consume_batch(&mut out), 0);
    assert_eq!(out.len(), 5);
}

#[test]
fn stack_ring_close_keeps_items() {
    let mut ring: StackRing<u8, 2> = StackRing::new();
    ring.reserve(1).unwrap();
    ring.write(0, 7);
    ring.commit(1);
    ring.close();
    assert!(ring.is_closed());
    assert!(!ring.is_empty());
    let mut out = Vec::new();
    assert_eq!(ring.consume_batch(&mut out), 1);
    assert_eq!(out, vec![7]);
    assert!(ring.is_closed() && ring.is_empty());
}

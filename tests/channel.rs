use ringmpsc::channel::{DEFAULT_MAX_PRODUCERS, DEFAULT_RING_BITS};
use ringmpsc::{Channel, Config, RegisterError};

fn small_config(max_producers: usize) -> Config {
    Config { ring_bits: 2, max_producers, enable_metrics: false }
}

#[test]
fn default_config_values() {
    let c = Config::default();
    assert_eq!(c.ring_bits, 16);
    assert_eq!(c.max_producers, 16);
    assert!(!c.enable_metrics);
    assert_eq!(DEFAULT_RING_BITS, 16);
    assert_eq!(DEFAULT_MAX_PRODUCERS, 16);
}

#[test]
fn fifth_registration_fails() {
    let mut ch: Channel<u64> = Channel::new(small_config(4));
    let mut producers = Vec::new();
    for i in 0..4 {
        let p = ch.register().unwrap();
        assert_eq!(p.id(), i);
        producers.push(p);
    }
    assert_eq!(ch.register().unwrap_err(), RegisterError::TooManyProducers);
    assert_eq!(ch.register().unwrap_err(), RegisterError::TooManyProducers);

    for (i, p) in producers.iter().enumerate() {
        p.reserve(&mut ch, 1).unwrap();
        p.write(&mut ch, 0, 10 * i as u64);
        p.commit(&mut ch, 1);
    }
    for i in 0..4 {
        let mut out = Vec::new();
        assert_eq!(ch.consume_batch(i, &mut out), Some(1));
        assert_eq!(out, vec![10 * i as u64]);
    }
}

#[test]
fn producers_write_only_their_own_ring() {
    let mut ch: Channel<u64> = Channel::new(small_config(2));
    let a = ch.register().unwrap();
    let b = ch.register().unwrap();
    for v in 0..3u64 {
        a.reserve(&mut ch, 1).unwrap();
        a.write(&mut ch, 0, v);
        a.commit(&mut ch, 1);
    }
    b.reserve(&mut ch, 1).unwrap();
    b.write(&mut ch, 0, 99);
    b.commit(&mut ch, 1);
    assert!(!ch.get_ring(0).unwrap().is_empty());
    let mut out = Vec::new();
    assert_eq!(ch.consume_batch(1, &mut out), Some(1));
    assert_eq!(out, vec![99]);
    out.clear();
    assert_eq!(ch.consume_batch(0, &mut out), Some(3));
    assert_eq!(out, vec![0, 1, 2]);
}

#[test]
fn get_ring_out_of_range() {
    let ch: Channel<u64> = Channel::new(small_config(3));
    assert_eq!(ch.max_producers(), 3);
    assert!(ch.get_ring(2).is_some());
    assert!(ch.get_ring(3).is_none());
    let mut ch = ch;
    let mut out = Vec::new();
    assert_eq!(ch.consume_batch(3, &mut out), None);
}

#[test]
fn close_closes_every_ring() {
    let mut ch: Channel<u64> = Channel::new(small_config(3));
    let p = ch.register().unwrap();
    p.reserve(&mut ch, 1).unwrap();
    p.write(&mut ch, 0, 5);
    p.commit(&mut ch, 1);
    ch.close();
    for i in 0..3 {
        assert!(ch.get_ring(i).unwrap().is_closed());
    }
    let mut out = Vec::new();
    assert_eq!(ch.consume_batch(0, &mut out), Some(1));
    assert_eq!(out, vec![5]);
    assert!(ch.get_ring(0).unwrap().is_empty());
}

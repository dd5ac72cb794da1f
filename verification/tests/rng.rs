//! The request-path generator.
use ramjet_ingress::rng::{below, hex_id, next_u64, seed};
use std::collections::HashSet;

#[test]
fn never_gets_stuck_at_zero() {
    // A zero state is the generator's one fixed point; the seed guards against
    // it, and a stuck generator would silently pin every request to endpoint 0.
    for nanos in [None, Some(0), Some(1), Some(u64::MAX), Some(0x9E37_79B9_7F4A_7C15)] {
        let mut rng = seed(nanos, 1);
        let mut seen_nonzero = false;
        for _ in 0..1000 {
            if next_u64(&mut rng) != 0 {
                seen_nonzero = true;
            }
        }
        assert!(seen_nonzero);
    }
}

#[test]
fn below_stays_in_range_and_covers_it() {
    let mut rng = seed(Some(1_700_000_000_000_000_000), 3);
    let mut seen = HashSet::new();
    for _ in 0..10_000 {
        let v = below(&mut rng, 7);
        assert!(v < 7, "{v} escaped the bound");
        seen.insert(v);
    }
    assert_eq!(seen.len(), 7, "some values in 0..7 were never drawn");
}

#[test]
fn below_zero_is_zero() {
    let mut rng = seed(Some(5), 5);
    assert_eq!(below(&mut rng, 0), 0);
}

#[test]
fn hex_ids_are_hex_and_distinct() {
    let mut rng = seed(Some(17), 2);
    let mut a = [0u8; 32];
    let mut b = [0u8; 32];
    hex_id(&mut rng, &mut a);
    hex_id(&mut rng, &mut b);
    assert_ne!(a, b);
    assert!(a.iter().all(|c| c.is_ascii_hexdigit() && !c.is_ascii_uppercase()));
}

#[test]
fn threads_do_not_share_a_stream() {
    // Two threads seeded in the same nanosecond.
    let mut local = seed(Some(1_700_000_000), 1);
    let mut other = seed(Some(1_700_000_000), 2);
    let local: Vec<u64> = (0..8).map(|_| next_u64(&mut local)).collect();
    let other: Vec<u64> = (0..8).map(|_| next_u64(&mut other)).collect();
    assert_ne!(local, other, "two threads drew the same sequence");
}

#[test]
fn a_hex_id_spells_two_words() {
    let mut rng = seed(Some(99), 4);
    let mut same = seed(Some(99), 4);
    let mut id = [0u8; 32];
    hex_id(&mut rng, &mut id);
    let first = next_u64(&mut same);
    let second = next_u64(&mut same);
    let expected = format!("{first:016x}{second:016x}");
    assert_eq!(&id[..], expected.as_bytes());
}

//! The streaming digesters against the one-shot functions: concatenation
//! across arbitrary splits, determinism, finish idempotence, and writes
//! after a finish.

use xxhash::{xxhash32_reference, xxhash64_reference, XXHash32, XXHash64};

fn sample(len: usize) -> Vec<u8> {
    (0..len).map(|i| (i * 31 + 7) as u8).collect()
}

#[test]
fn xxh32_streaming_matches_oneshot_on_every_split() {
    let data = sample(257);
    let oneshot = xxhash32_reference(5, &data);
    for split in 0..=data.len() {
        let mut hasher = XXHash32::with_seed(5);
        hasher.write(&data[..split]);
        hasher.write(&data[split..]);
        assert_eq!(oneshot, hasher.finish(), "split at {}", split);
    }
}

#[test]
fn xxh32_streaming_matches_oneshot_on_many_fragments() {
    let data = sample(1000);
    let oneshot = xxhash32_reference(0, &data);
    for step in [1, 2, 3, 5, 7, 15, 16, 17, 33, 100] {
        let mut hasher = XXHash32::new();
        for piece in data.chunks(step) {
            hasher.write(piece);
        }
        assert_eq!(oneshot, hasher.finish(), "fragment size {}", step);
    }
}

#[test]
fn xxh64_streaming_matches_oneshot_on_every_split() {
    let data = sample(300);
    let oneshot = xxhash64_reference(99, &data);
    for split in 0..=data.len() {
        let mut hasher = XXHash64::with_seed(99);
        hasher.write(&data[..split]);
        hasher.write(&data[split..]);
        assert_eq!(oneshot, hasher.finish(), "split at {}", split);
    }
}

#[test]
fn xxh64_streaming_matches_oneshot_on_many_fragments() {
    let data = sample(1000);
    let oneshot = xxhash64_reference(0, &data);
    for step in [1, 2, 3, 5, 7, 31, 32, 33, 65, 100] {
        let mut hasher = XXHash64::new();
        for piece in data.chunks(step) {
            hasher.write(piece);
        }
        assert_eq!(oneshot, hasher.finish(), "fragment size {}", step);
    }
}

#[test]
fn digests_are_deterministic_and_seed_sensitive() {
    let data = sample(123);
    assert_eq!(xxhash32_reference(7, &data), xxhash32_reference(7, &data));
    assert_eq!(xxhash64_reference(7, &data), xxhash64_reference(7, &data));
    assert_ne!(xxhash32_reference(7, &data), xxhash32_reference(8, &data));
    assert_ne!(xxhash64_reference(7, &data), xxhash64_reference(8, &data));
}

#[test]
fn finish_is_idempotent() {
    let data = sample(77);
    let mut h32 = XXHash32::with_seed(3);
    h32.write(&data);
    assert_eq!(h32.finish(), h32.finish());
    let mut h64 = XXHash64::with_seed(3);
    h64.write(&data);
    assert_eq!(h64.finish(), h64.finish());
}

#[test]
fn finish_does_not_disturb_later_writes() {
    let x = sample(45);
    let y = sample(200);
    let mut joined = x.clone();
    joined.extend_from_slice(&y);

    let mut h32 = XXHash32::with_seed(11);
    h32.write(&x);
    let mid32 = h32.finish();
    assert_eq!(mid32, xxhash32_reference(11, &x));
    h32.write(&y);
    assert_eq!(h32.finish(), xxhash32_reference(11, &joined));

    let mut h64 = XXHash64::with_seed(11);
    h64.write(&x);
    let mid64 = h64.finish();
    assert_eq!(mid64, xxhash64_reference(11, &x));
    h64.write(&y);
    assert_eq!(h64.finish(), xxhash64_reference(11, &joined));
}

#[test]
fn default_digesters_use_seed_zero() {
    let data = sample(50);
    let mut h32 = XXHash32::default();
    h32.write(&data);
    assert_eq!(h32.finish(), xxhash32_reference(0, &data));
    let mut h64 = XXHash64::default();
    h64.write(&data);
    assert_eq!(h64.finish(), xxhash64_reference(0, &data));
}

#[test]
fn cloned_digesters_continue_independently() {
    let data = sample(70);
    let mut h32 = XXHash32::with_seed(2);
    h32.write(&data[..30]);
    let mut c32 = h32.clone();
    assert_eq!(h32.finish(), c32.finish());
    c32.write(&data[30..]);
    assert_eq!(c32.finish(), xxhash32_reference(2, &data));
    assert_eq!(h32.finish(), xxhash32_reference(2, &data[..30]));

    let mut h64 = XXHash64::with_seed(2);
    h64.write(&data[..30]);
    let mut c64 = h64.clone();
    assert_eq!(h64.finish(), c64.finish());
    c64.write(&data[30..]);
    assert_eq!(c64.finish(), xxhash64_reference(2, &data));
    assert_eq!(h64.finish(), xxhash64_reference(2, &data[..30]));
}

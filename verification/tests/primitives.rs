//! The byte-load primitives and the advisory hints.

use xxhash::{hint_likely, hint_unlikely, item_per_cache_line, prefetch_buffer, read_u32_le,
    read_u64_le};

#[test]
fn read_u32_le_interprets_bytes_little_endian() {
    let buf = [0x01u8, 0x02, 0x03, 0x04, 0x05, 0x06, 0x07, 0x08, 0xFF];
    assert_eq!(0x04030201, read_u32_le(&buf, 0));
    assert_eq!(0x05040302, read_u32_le(&buf, 1));
    assert_eq!(0xFF080706, read_u32_le(&buf, 5));
}

#[test]
fn read_u64_le_interprets_bytes_little_endian() {
    let buf = [0x01u8, 0x02, 0x03, 0x04, 0x05, 0x06, 0x07, 0x08, 0x09];
    assert_eq!(0x0807060504030201, read_u64_le(&buf, 0));
    assert_eq!(0x0908070605040302, read_u64_le(&buf, 1));
}

#[test]
fn hints_do_not_change_their_condition() {
    assert!(hint_likely(true));
    assert!(!hint_likely(false));
    assert!(hint_unlikely(true));
    assert!(!hint_unlikely(false));
    prefetch_buffer(&[1u64, 2, 3]);
}

#[test]
fn items_per_cache_line_rounds_up_and_never_hits_zero() {
    assert_eq!(64, item_per_cache_line::<u8>());
    assert_eq!(8, item_per_cache_line::<u64>());
    assert_eq!(1, item_per_cache_line::<[u8; 64]>());
    assert_eq!(1, item_per_cache_line::<[u8; 100]>());
    assert_eq!(1, item_per_cache_line::<()>());
    assert_eq!(3, item_per_cache_line::<[u8; 24]>());
}

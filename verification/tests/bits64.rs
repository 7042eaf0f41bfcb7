use std::hash::Hasher;

use xxhash::{xxhash64_reference, XXHash64};

#[test]
fn xxh64_sanity_test() {
    let mut seed = [0u8; 8];
    getrandom::getrandom(seed.as_mut()).unwrap();
    let seed = u64::from_le_bytes(seed);

    let mut core_data = [0u8; 4096];
    getrandom::getrandom(core_data.as_mut()).unwrap();

    let mut baseline_hasher = twox_hash::XxHash64::with_seed(seed);
    baseline_hasher.write(core_data.as_ref());
    let baseline_output = baseline_hasher.finish();

    let mut local_hasher = XXHash64::with_seed(seed);
    local_hasher.write(core_data.as_ref());
    let local_output = local_hasher.finish();

    let reference_output = xxhash64_reference(seed, core_data.as_ref());
    assert_eq!(reference_output, baseline_output);
    assert_eq!(local_output, reference_output);
}

/// The empty input under seed 0 is the best-known xxHash64 vector.
#[test]
fn xxh64_matches_c_for_empty_inputs() {
    assert_eq!(0xEF46DB3751D8E999u64, xxhash64_reference(0, b""));
    let hasher = XXHash64::new();
    assert_eq!(0xEF46DB3751D8E999u64, hasher.finish());
}

/// Every tail length (8-byte chunks, the 4-byte chunk, stray bytes) agrees
/// with the third-party reference, on top of whole blocks.
#[test]
fn xxh64_matches_baseline_for_every_tail_length() {
    let data = (0..96).map(|i| (i * 7 + 3) as u8).collect::<Vec<u8>>();
    for len in 0..=40 {
        let dut = &data[..len];
        let mut baseline = twox_hash::XxHash64::with_seed(0x0BADC0DE);
        baseline.write(dut);
        assert_eq!(
            baseline.finish(),
            xxhash64_reference(0x0BADC0DE, dut),
            "tail length {}",
            len
        );
    }
}

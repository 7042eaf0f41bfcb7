//! The 32- and 64-bit CRC engines: catalogued check values, table entries,
//! streaming against one-shot, and parameter validation.

use xxhash::{Crc32, Crc32Params, Crc32Table, Crc64, Crc64Params, Crc64Table};

const CHECK_INPUT: &[u8] = b"123456789";

#[test]
fn crc32_ieee_matches_canonical_check_value() {
    let engine = Crc32::ieee();
    assert_eq!(0xCBF43926, engine.process(CHECK_INPUT));
}

#[test]
fn crc32_of_empty_input_is_initial_register_folded_out() {
    let engine = Crc32::ieee();
    assert_eq!(0x00000000, engine.process(b""));
    assert_eq!(0x00000000, engine.finalize());
}

#[test]
fn crc32_unreflected_parameter_set_matches_canonical_check_value() {
    let bzip2 = Crc32::new(Crc32Params {
        poly: 0x04C11DB7,
        init: 0xFFFFFFFF,
        refin: false,
        refout: false,
        xorout: 0xFFFFFFFF,
    })
    .unwrap();
    assert_eq!(0xFC891918, bzip2.process(CHECK_INPUT));
}

#[test]
fn crc32_table_entries_match_the_classical_table() {
    let reflected = Crc32Table::new(0x04C11DB7, true);
    assert_eq!(0x00000000, reflected.index(0));
    assert_eq!(0x77073096, reflected.index(1));
    assert_eq!(0x2D02EF8D, reflected.index(255));

    let normal = Crc32Table::new(0x04C11DB7, false);
    assert_eq!(0x00000000, normal.index(0));
    assert_eq!(0x04C11DB7, normal.index(1));
}

#[test]
fn crc32_streaming_matches_oneshot_and_finalize_is_stable() {
    let data = (0..50).map(|i| (i * 11 + 5) as u8).collect::<Vec<u8>>();
    let engine = Crc32::ieee();
    let oneshot = engine.process(&data);
    for split in [0, 1, 7, 25, 49, 50] {
        let mut streaming = Crc32::ieee();
        streaming.update(&data[..split]);
        assert_eq!(streaming.finalize(), streaming.finalize());
        streaming.update(&data[split..]);
        assert_eq!(oneshot, streaming.finalize(), "split at {}", split);
    }
}

#[test]
fn crc32_rejects_a_zero_polynomial() {
    let rejected = Crc32::new(Crc32Params {
        poly: 0,
        init: 0,
        refin: true,
        refout: true,
        xorout: 0,
    });
    assert!(rejected.is_none());
}

#[test]
fn crc64_xz_matches_canonical_check_value() {
    let engine = Crc64::xz();
    assert_eq!(0x995DC9BBDF1939FA, engine.process(CHECK_INPUT));
}

#[test]
fn crc64_unreflected_parameter_set_matches_canonical_check_value() {
    let ecma = Crc64::new(Crc64Params {
        poly: 0x42F0E1EBA9EA3693,
        init: 0,
        refin: false,
        refout: false,
        xorout: 0,
    })
    .unwrap();
    assert_eq!(0x6C40DF5F0B497347, ecma.process(CHECK_INPUT));
}

#[test]
fn crc64_table_entries_match_the_classical_table() {
    let reflected = Crc64Table::new(0x42F0E1EBA9EA3693, true);
    assert_eq!(0x0000000000000000, reflected.index(0));
    assert_eq!(0xB32E4CBE03A75F6F, reflected.index(1));

    let normal = Crc64Table::new(0x42F0E1EBA9EA3693, false);
    assert_eq!(0x42F0E1EBA9EA3693, normal.index(1));
}

#[test]
fn crc64_streaming_matches_oneshot_and_finalize_is_stable() {
    let data = (0..50).map(|i| (i * 3 + 1) as u8).collect::<Vec<u8>>();
    let engine = Crc64::xz();
    let oneshot = engine.process(&data);
    for split in [0, 1, 13, 30, 50] {
        let mut streaming = Crc64::xz();
        streaming.update(&data[..split]);
        assert_eq!(streaming.finalize(), streaming.finalize());
        streaming.update(&data[split..]);
        assert_eq!(oneshot, streaming.finalize(), "split at {}", split);
    }
}

#[test]
fn crc64_rejects_a_zero_polynomial() {
    let rejected = Crc64::new(Crc64Params {
        poly: 0,
        init: 0,
        refin: false,
        refout: false,
        xorout: 0,
    });
    assert!(rejected.is_none());
}

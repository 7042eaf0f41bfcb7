//! The table-driven CRC-16 engine: catalogued check values, the table
//! generator, streaming against one-shot, and parameter validation.

use xxhash::{Crc16, Crc16Params, CRCTableConcrete};

const CHECK_INPUT: &[u8] = b"123456789";

#[test]
fn crc16_arc_matches_canonical_check_value() {
    let engine = Crc16::arc();
    assert_eq!(0xBB3D, engine.process(CHECK_INPUT));
}

#[test]
fn crc16_arc_of_empty_input_is_initial_register() {
    let engine = Crc16::arc();
    assert_eq!(0x0000, engine.process(b""));
    assert_eq!(0x0000, engine.finalize());
}

#[test]
fn crc16_unreflected_parameter_sets_match_canonical_check_values() {
    let cdma2000 = Crc16::new(Crc16Params {
        poly: 0xC867,
        init: 0xFFFF,
        refin: false,
        refout: false,
        xorout: 0,
    })
    .unwrap();
    assert_eq!(0x4C06, cdma2000.process(CHECK_INPUT));

    let cms = Crc16::new(Crc16Params {
        poly: 0x8005,
        init: 0xFFFF,
        refin: false,
        refout: false,
        xorout: 0,
    })
    .unwrap();
    assert_eq!(0xAEE7, cms.process(CHECK_INPUT));

    let dds_110 = Crc16::new(Crc16Params {
        poly: 0x8005,
        init: 0x800D,
        refin: false,
        refout: false,
        xorout: 0,
    })
    .unwrap();
    assert_eq!(0x9ECF, dds_110.process(CHECK_INPUT));
}

#[test]
fn crc16_rejects_a_zero_polynomial() {
    let rejected = Crc16::new(Crc16Params {
        poly: 0,
        init: 0,
        refin: true,
        refout: true,
        xorout: 0,
    });
    assert!(rejected.is_none());
    let accepted = Crc16::new(Crc16Params {
        poly: 0x8005,
        init: 0,
        refin: true,
        refout: true,
        xorout: 0,
    });
    assert!(accepted.is_some());
}

#[test]
fn crc16_table_entries_match_the_classical_tables() {
    let reflected = CRCTableConcrete::new(0x8005, true);
    assert_eq!(0x0000, reflected.index(0));
    assert_eq!(0xC0C1, reflected.index(1));
    assert_eq!(0xC181, reflected.index(2));
    assert_eq!(0x0140, reflected.index(3));
    assert_eq!(0xA001, reflected.index(128));
    assert_eq!(0x4040, reflected.index(255));

    let normal = CRCTableConcrete::new(0x8005, false);
    assert_eq!(0x0000, normal.index(0));
    assert_eq!(0x8005, normal.index(1));
    assert_eq!(0x0202, normal.index(255));
}

#[test]
fn crc16_streaming_matches_oneshot_on_every_split() {
    let data = (0..60).map(|i| (i * 13 + 1) as u8).collect::<Vec<u8>>();
    let engine = Crc16::arc();
    let oneshot = engine.process(&data);
    for split in 0..=data.len() {
        let mut streaming = Crc16::arc();
        streaming.update(&data[..split]);
        streaming.update(&data[split..]);
        assert_eq!(oneshot, streaming.finalize(), "split at {}", split);
    }
}

#[test]
fn crc16_finalize_is_idempotent_and_does_not_disturb_updates() {
    let mut streaming = Crc16::arc();
    streaming.update(b"1234");
    assert_eq!(streaming.finalize(), streaming.finalize());
    streaming.update(b"56789");
    assert_eq!(0xBB3D, streaming.finalize());
}

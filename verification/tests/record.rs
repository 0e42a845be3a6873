use hg_rs::record::{decode_record, encode_record, Record};
use hg_rs::RECORD_SIZE;

#[test]
fn test_ser() {
    let record = Record::default();
    let buf = encode_record(&record);
    assert_eq!(buf.len() as u64, RECORD_SIZE as u64);
    assert_eq!(buf.len(), RECORD_SIZE);
    let ff: Record = decode_record(&buf, 0);
    assert_eq!(record, ff);
}

#[test]
fn record_roundtrip_keeps_fields() {
    let record = Record {
        hunk_offset: 77,
        hunk_length: 13,
        uncompressed_length: 0,
        base_revision: 4,
        link_revision: 0,
        parent1_revision: Some(3),
        parent2_revision: None,
        hash: (0u8..20u8).collect(),
        padding: vec![0u8; 12],
    };
    let buf = encode_record(&record);
    assert_eq!(buf.len(), 64);
    let back = decode_record(&buf, 0);
    assert_eq!(back, record);
}

#[test]
fn record_wire_layout_is_little_endian() {
    let record = Record {
        hunk_offset: 0x0102030405060708,
        hunk_length: 0x0a0b0c0d,
        uncompressed_length: 0,
        base_revision: 1,
        link_revision: 0,
        parent1_revision: None,
        parent2_revision: None,
        hash: vec![0xee; 20],
        padding: vec![0u8; 12],
    };
    let buf = encode_record(&record);
    assert_eq!(&buf[0..8], &[8, 7, 6, 5, 4, 3, 2, 1]);
    assert_eq!(&buf[8..12], &[0x0d, 0x0c, 0x0b, 0x0a]);
    // an absent parent is stored as the all-bits-set sentinel
    assert_eq!(&buf[24..28], &[0xff, 0xff, 0xff, 0xff]);
    assert_eq!(&buf[32..52], &[0xee; 20]);
}

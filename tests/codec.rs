use kving::{data_file_ids, decode_record, encode_record, parse_file_id, Decoded, RecordData, HEADER_SIZE};

#[test]
fn encode_layout_is_big_endian() {
    let bytes = encode_record(0x0102030405060708, b"ab", b"xyz");
    assert_eq!(bytes.len(), 28 + 2 + 3);
    assert_eq!(&bytes[4..12], &[1, 2, 3, 4, 5, 6, 7, 8]);
    assert_eq!(&bytes[12..20], &[0, 0, 0, 0, 0, 0, 0, 2]);
    assert_eq!(&bytes[20..28], &[0, 0, 0, 0, 0, 0, 0, 3]);
    assert_eq!(&bytes[28..30], b"ab");
    assert_eq!(&bytes[30..], b"xyz");
    let crc = crc32fast::hash(&bytes[4..]);
    assert_eq!(&bytes[0..4], &crc.to_be_bytes());
}

#[test]
fn crc_is_ieee() {
    let bytes = encode_record(0, b"", b"");
    assert_eq!(bytes.len() as u64, HEADER_SIZE);
    assert_eq!(&bytes[4..], &[0u8; 24]);
    assert_ne!(&bytes[0..4], &[0u8; 4]);
    assert_eq!(crc32fast::hash(b"123456789"), 0xCBF43926);
}

#[test]
fn decode_round_trip() {
    let mut bytes = encode_record(1234, b"key", b"value");
    bytes.extend_from_slice(b"trailing");
    match decode_record(&bytes, 0) {
        Decoded::Record(r) => {
            assert_eq!(r.timestamp, 1234);
            assert_eq!(r.key, b"key".to_vec());
            assert_eq!(r.value, b"value".to_vec());
            assert_eq!(r.key_size, 3);
            assert_eq!(r.value_size, 5);
            assert_eq!(r.crc, crc32fast::hash(&bytes[4..36]));
        }
        _ => panic!("expected a record"),
    }
}

#[test]
fn decode_second_record_at_offset() {
    let mut bytes = encode_record(1, b"a", b"1");
    let first = bytes.len();
    bytes.extend_from_slice(&encode_record(2, b"b", b"22"));
    match decode_record(&bytes, first) {
        Decoded::Record(r) => {
            assert_eq!(r.key, b"b".to_vec());
            assert_eq!(r.value, b"22".to_vec());
        }
        _ => panic!("expected a record"),
    }
}

#[test]
fn decode_truncated_is_end_of_file() {
    let bytes = encode_record(7, b"key", b"value");
    assert!(matches!(decode_record(&bytes[..10], 0), Decoded::EndOfFile));
    assert!(matches!(decode_record(&bytes[..bytes.len() - 1], 0), Decoded::EndOfFile));
    assert!(matches!(decode_record(&bytes, bytes.len()), Decoded::EndOfFile));
}

#[test]
fn decode_bad_crc_is_corrupt_with_size() {
    let mut bytes = encode_record(7, b"key", b"value");
    bytes[29] ^= 0xff;
    match decode_record(&bytes, 0) {
        Decoded::Corrupt(n) => assert_eq!(n, 28 + 3 + 5),
        _ => panic!("expected corruption"),
    }
}

#[test]
fn tombstone_record() {
    let t = RecordData::tombstone(b"k".to_vec(), 5);
    assert!(t.is_tombstone());
    assert_eq!(t.value, vec![0u8]);
    assert_eq!(t.total_size(), 30);
    let r = RecordData::new(b"k".to_vec(), vec![1u8], 5);
    assert!(!r.is_tombstone());
    let bytes = t.encode();
    assert_eq!(bytes, encode_record(5, b"k", &[0]));
}

#[test]
fn file_names_parse() {
    assert_eq!(parse_file_id(b"1700000000.bsk", b"bsk"), Some(1700000000));
    assert_eq!(parse_file_id(b"0.bsk", b"bsk"), Some(0));
    assert_eq!(parse_file_id(b"18446744073709551615.bsk", b"bsk"), Some(u64::MAX));
    assert_eq!(parse_file_id(b"18446744073709551616.bsk", b"bsk"), None);
    assert_eq!(parse_file_id(b"12.bsk.merge", b"bsk"), None);
    assert_eq!(parse_file_id(b"12.txt", b"bsk"), None);
    assert_eq!(parse_file_id(b"a1.bsk", b"bsk"), None);
    assert_eq!(parse_file_id(b".bsk", b"bsk"), None);
    assert_eq!(parse_file_id(b"12bsk", b"bsk"), None);
}

#[test]
fn file_names_accept_a_leading_plus() {
    assert_eq!(parse_file_id(b"+5.bsk", b"bsk"), Some(5));
    assert_eq!(parse_file_id(b"+.bsk", b"bsk"), None);
    assert_eq!(parse_file_id(b"-5.bsk", b"bsk"), None);
    assert_eq!(parse_file_id(b"++5.bsk", b"bsk"), None);
    assert_eq!(parse_file_id(b"+18446744073709551616.bsk", b"bsk"), None);
}

#[test]
fn data_file_ids_sorted_and_filtered() {
    let names: Vec<Vec<u8>> = ["30.bsk", "notes.txt", "7.bsk", "12.bsk.merge", "+9.bsk", "7.bsk", "x.bsk"]
        .iter()
        .map(|n| n.as_bytes().to_vec())
        .collect();
    assert_eq!(data_file_ids(&names, b"bsk"), vec![7, 7, 9, 30]);
    assert!(data_file_ids(&Vec::new(), b"bsk").is_empty());
}

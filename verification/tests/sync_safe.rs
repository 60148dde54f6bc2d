use id3::{SyncSafe, SyncSafeError};

#[test]
fn parse_sync_safe_from_valid_bytes() {
    assert_eq!(SyncSafe::from([0b_01101110, 0b_01101110, 0b_01101110, 0b_01101110]).0, 0b_00001101_11011011_10110111_01101110);
}

#[test]
fn parse_sync_safe_from_invalid_bytes() {
    assert_eq!(SyncSafe::from([0b_11101110, 0b_11101110, 0b_11101110, 0b_11101110]).0, 0b_00001101_11011011_10110111_01101110);
}

#[test]
fn parse_sync_safe_from_valid_vec_of_valid_bytes() {
    assert_eq!(SyncSafe::try_from(vec![0b_01101110, 0b_01101110, 0b_01101110, 0b_01101110]).unwrap().0, 0b_00001101_11011011_10110111_01101110)
}

#[test]
fn parse_sync_safe_from_valid_vec_of_invalid_bytes() {
    assert_eq!(SyncSafe::try_from(vec![0b_11101110, 0b_11101110, 0b_11101110, 0b_11101110]).unwrap().0, 0b_00001101_11011011_10110111_01101110)
}

#[test]
#[should_panic]
fn parse_sync_safe_panics_from_invalid_vec() {
    SyncSafe::try_from(vec![0b_11101110, 0b_11101110, 0b_11101110]).unwrap();
}

#[test]
fn parse_sync_safe_from_valid_slice_of_valid_bytes() {
    assert_eq!(SyncSafe::try_from([0b_01101110, 0b_01101110, 0b_01101110, 0b_01101110].as_slice()).unwrap().0, 0b_00001101_11011011_10110111_01101110)
}

#[test]
fn parse_sync_safe_from_valid_slice_of_invalid_bytes() {
    assert_eq!(SyncSafe::try_from([0b_11101110, 0b_11101110, 0b_11101110, 0b_11101110].as_slice()).unwrap().0, 0b_00001101_11011011_10110111_01101110)
}

#[test]
#[should_panic]
fn parse_sync_safe_panics_from_invalid_slice() {
    SyncSafe::try_from([0b_11101110, 0b_11101110, 0b_11101110].as_slice()).unwrap();
}

#[test]
fn vec_of_bytes_from_valid_sync_safe() {
    assert_eq!(Vec::<u8>::from(SyncSafe(0b_00001101_11011011_10110111_01101110)), vec![0b_01101110, 0b_01101110, 0b_01101110, 0b_01101110])
}

#[test]
fn vec_of_bytes_from_invalid_sync_safe() {
    assert_eq!(Vec::<u8>::from(SyncSafe(0b_11111101_11011011_10110111_01101110)), vec![0b_01101110, 0b_01101110, 0b_01101110, 0b_01101110])
}

#[test]
fn sync_safe_decodes_extremes() {
    assert_eq!(SyncSafe::from([0, 0, 0, 0]).0, 0);
    assert_eq!(SyncSafe::from([0x80, 0x80, 0x80, 0x80]).0, 0);
    assert_eq!(SyncSafe::from([0x7F, 0x7F, 0x7F, 0x7F]).0, 0x0FFF_FFFF);
    assert_eq!(SyncSafe::from([0xFF, 0xFF, 0xFF, 0xFF]).0, 0x0FFF_FFFF);
}

#[test]
fn sync_safe_decodes_each_byte_at_its_place() {
    assert_eq!(SyncSafe::from([1, 0, 0, 0]).0, 1 << 21);
    assert_eq!(SyncSafe::from([0, 1, 0, 0]).0, 1 << 14);
    assert_eq!(SyncSafe::from([0, 0, 1, 0]).0, 1 << 7);
    assert_eq!(SyncSafe::from([0, 0, 0, 1]).0, 1);
    assert_eq!(SyncSafe::from([0x00, 0x08, 0x2E, 0x37]).0, 137015);
    assert_eq!(SyncSafe::from([0x00, 0x0B, 0x36, 0x47]).0, 187207);
}

#[test]
fn sync_safe_encodes_each_byte_from_its_place() {
    assert_eq!(Vec::<u8>::from(SyncSafe(0)), vec![0, 0, 0, 0]);
    assert_eq!(Vec::<u8>::from(SyncSafe(137015)), vec![0x00, 0x08, 0x2E, 0x37]);
    assert_eq!(Vec::<u8>::from(SyncSafe(0x0FFF_FFFF)), vec![0x7F, 0x7F, 0x7F, 0x7F]);
    assert_eq!(Vec::<u8>::from(SyncSafe(u32::MAX)), vec![0x7F, 0x7F, 0x7F, 0x7F]);
    assert_eq!(Vec::<u8>::from(SyncSafe(0x1000_0000)), vec![0, 0, 0, 0]);
}

#[test]
fn sync_safe_encode_after_decode_clears_top_bits() {
    let samples: [[u8; 4]; 5] = [
        [0x00, 0x08, 0x2E, 0x37],
        [0xEE, 0xEE, 0xEE, 0xEE],
        [0x80, 0x01, 0xFF, 0x7F],
        [0xFF, 0x00, 0x81, 0xC3],
        [0x12, 0x34, 0x56, 0x78],
    ];
    for a in samples {
        let number = SyncSafe::from(a).0;
        let encoded = Vec::<u8>::from(SyncSafe(number));
        assert_eq!(encoded, vec![a[0] & 0x7F, a[1] & 0x7F, a[2] & 0x7F, a[3] & 0x7F]);
        assert!(encoded.iter().all(|b| *b < 0x80));
        assert_eq!(SyncSafe::try_from(encoded).unwrap().0, number);
    }
}

#[test]
fn sync_safe_decode_after_encode_keeps_low_28_bits() {
    for x in [0u32, 1, 127, 128, 0x0FFF_FFFF, 0x1000_0000, 0xDEAD_BEEF, u32::MAX] {
        let once = SyncSafe::try_from(Vec::<u8>::from(SyncSafe(x))).unwrap().0;
        assert_eq!(once, x & 0x0FFF_FFFF);
        let twice = SyncSafe::try_from(Vec::<u8>::from(SyncSafe(once))).unwrap().0;
        assert_eq!(twice, once);
    }
}

#[test]
fn sync_safe_rejects_every_other_length() {
    for len in [0usize, 1, 2, 3, 5, 6, 10, 100] {
        let bytes = vec![0x6E; len];
        match SyncSafe::try_from(bytes.as_slice()) {
            Err(SyncSafeError::IncorrectLength(given)) => assert_eq!(given, len),
            Ok(_) => panic!("a length of {} was accepted", len),
        }
        match SyncSafe::try_from(bytes) {
            Err(SyncSafeError::IncorrectLength(given)) => assert_eq!(given, len),
            Ok(_) => panic!("a length of {} was accepted", len),
        }
    }
}

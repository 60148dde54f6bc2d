use id3::{ID3Error, Reader};

#[test]
fn read_bytes_in_bounds() {
    let mut reader = Reader::new(vec![0x49, 0x44, 0x33, 0x03, 0x00, 0x00, 0x00, 0x0b, 0x36, 0x47]);
    let bytes = reader.read_n_bytes(3).unwrap();
    assert_eq!(bytes, vec![0x49, 0x44, 0x33]);
}

#[test]
fn skip_bytes_in_bounds() {
    let mut reader = Reader::new(vec![0x49, 0x44, 0x33, 0x03, 0x00, 0x00, 0x00, 0x0b, 0x36, 0x47]);
    reader.skip_n_bytes(3).unwrap();
    let bytes = reader.read_n_bytes(3).unwrap();
    assert_eq!(bytes, vec![0x03, 0x00, 0x00]);
}

#[test]
fn reader_hands_out_bytes_in_order() {
    let mut reader = Reader::new(vec![1, 2, 3, 4, 5, 6]);
    assert_eq!(reader.remaining(), 6);
    assert_eq!(reader.read_n_bytes(0).unwrap(), Vec::<u8>::new());
    assert_eq!(reader.read_n_bytes(2).unwrap(), vec![1, 2]);
    assert_eq!(reader.remaining(), 4);
    assert_eq!(reader.read_n_bytes(4).unwrap(), vec![3, 4, 5, 6]);
    assert_eq!(reader.remaining(), 0);
    assert_eq!(reader.read_n_bytes(0).unwrap(), Vec::<u8>::new());
}

#[test]
fn reader_short_read_exhausts_the_source() {
    let mut reader = Reader::new(vec![1, 2, 3]);
    assert!(matches!(reader.read_n_bytes(4), Err(ID3Error::NotEnoughBytes)));
    assert_eq!(reader.remaining(), 0);
    assert!(matches!(reader.read_n_bytes(1), Err(ID3Error::NotEnoughBytes)));
    assert!(matches!(reader.read_n_bytes(usize::MAX), Err(ID3Error::NotEnoughBytes)));
}

#[test]
fn reader_skip_stops_at_the_end() {
    let mut reader = Reader::new(vec![1, 2, 3, 4]);
    assert!(reader.skip_n_bytes(0).is_ok());
    assert_eq!(reader.remaining(), 4);
    assert!(reader.skip_n_bytes(4).is_ok());
    assert_eq!(reader.remaining(), 0);

    let mut reader = Reader::new(vec![1, 2, 3, 4]);
    assert!(matches!(reader.skip_n_bytes(5), Err(ID3Error::NotEnoughBytes)));
    assert_eq!(reader.remaining(), 0);
    assert!(matches!(reader.skip_n_bytes(usize::MAX), Err(ID3Error::NotEnoughBytes)));
}

#[test]
fn reader_over_nothing() {
    let mut reader = Reader::new(Vec::new());
    assert_eq!(reader.remaining(), 0);
    assert!(reader.read_n_bytes(0).is_ok());
    assert!(reader.skip_n_bytes(0).is_ok());
    assert!(matches!(reader.read_n_bytes(1), Err(ID3Error::NotEnoughBytes)));
}

use id3::{Frame, FrameHeader, ID3Error, Reader};

#[test]
fn frame_header_from_valid_bytes() {
    let bytes: [u8; 10] = [0x54, 0x49, 0x54, 0x32, 0x00, 0x00, 0x00, 0x25, 0x00, 0x00];
    FrameHeader::read_from(&mut Reader::new(bytes.to_vec())).unwrap();
}

#[test]
fn frame_header_from_too_many_bytes() {
    let bytes: [u8; 11] = [0x54, 0x49, 0x54, 0x32, 0x00, 0x00, 0x00, 0x25, 0x00, 0x00, 0x00];
    FrameHeader::read_from(&mut Reader::new(bytes.to_vec())).unwrap();
}

#[test]
fn frame_header_error_from_not_enough_bytes() {
    let bytes: [u8; 9] = [0x54, 0x49, 0x54, 0x32, 0x00, 0x00, 0x00, 0x25, 0x00];
    let frame_header = FrameHeader::read_from(&mut Reader::new(bytes.to_vec()));
    match frame_header {
        Err(ID3Error::NotEnoughBytes) => assert!(true),
        _ => assert!(false)
    }
}

#[test]
fn frame_header_size() {
    let bytes: [u8; 10] = [0x54, 0x49, 0x54, 0x32, 0x00, 0x00, 0x00, 0x25, 0x00, 0x00];
    let head = FrameHeader::read_from(&mut Reader::new(bytes.to_vec())).unwrap();
    assert_eq!(head.size(), 37)
}

#[test]
fn frame_header_id() {
    let bytes: [u8; 10] = [0x54, 0x49, 0x54, 0x32, 0x00, 0x00, 0x00, 0x25, 0x00, 0x00];
    let head = FrameHeader::read_from(&mut Reader::new(bytes.to_vec())).unwrap();
    assert_eq!(head.id(), "TIT2".to_string())
}

#[test]
fn frame_header_holds_every_field() {
    let bytes: [u8; 10] = [0x54, 0x50, 0x45, 0x31, 0x01, 0x02, 0x03, 0x04, 0xA0, 0x0B];
    let mut reader = Reader::new(bytes.to_vec());
    let head = FrameHeader::read_from(&mut reader).unwrap();
    assert_eq!(head.frame_id, [0x54, 0x50, 0x45, 0x31]);
    assert_eq!(head.size, [1, 2, 3, 4]);
    assert_eq!(head.flags, [0xA0, 0x0B]);
    assert_eq!(head.size(), 0x0102_0304);
    assert_eq!(head.id(), "TPE1");
    assert_eq!(reader.remaining(), 0);
}

#[test]
fn frame_size_is_not_sync_safe() {
    let bytes: [u8; 10] = [0x54, 0x49, 0x54, 0x32, 0x00, 0x00, 0x01, 0x80, 0x00, 0x00];
    let head = FrameHeader::read_from(&mut Reader::new(bytes.to_vec())).unwrap();
    assert_eq!(head.size(), 384);
    let bytes: [u8; 10] = [0x54, 0x49, 0x54, 0x32, 0xFF, 0xFF, 0xFF, 0xFF, 0x00, 0x00];
    let head = FrameHeader::read_from(&mut Reader::new(bytes.to_vec())).unwrap();
    assert_eq!(head.size(), u32::MAX);
}

#[test]
fn frame_is_read_with_its_payload() {
    let mut bytes = vec![0x54, 0x49, 0x54, 0x32, 0x00, 0x00, 0x00, 0x05, 0x40, 0x01];
    bytes.extend_from_slice(&[0x00, 0x41, 0x62, 0x63, 0x00]);
    bytes.extend_from_slice(&[0x99, 0x98]);
    let mut reader = Reader::new(bytes);
    let frame = Frame::from_reader(&mut reader).unwrap();
    assert_eq!(frame.id, [0x54, 0x49, 0x54, 0x32]);
    assert_eq!(frame.size, [0, 0, 0, 5]);
    assert_eq!(frame.flags, [0x40, 0x01]);
    assert_eq!(frame.data, vec![0x00, 0x41, 0x62, 0x63, 0x00]);
    assert_eq!(frame.id(), "TIT2");
    assert_eq!(frame.size(), 5);
    assert_eq!(frame.data.len(), frame.size() as usize);
    assert_eq!(reader.read_n_bytes(2).unwrap(), vec![0x99, 0x98]);
}

#[test]
fn frame_without_payload() {
    let mut reader = Reader::new(vec![0x54, 0x49, 0x54, 0x32, 0, 0, 0, 0, 0, 0]);
    let frame = Frame::from_reader(&mut reader).unwrap();
    assert_eq!(frame.size(), 0);
    assert!(frame.data.is_empty());
    assert_eq!(reader.remaining(), 0);
}

#[test]
fn frame_is_never_cut_short() {
    // The header declares five bytes, four are there.
    let bytes = vec![0x54, 0x49, 0x54, 0x32, 0, 0, 0, 5, 0, 0, 1, 2, 3, 4];
    let mut reader = Reader::new(bytes);
    assert!(matches!(Frame::from_reader(&mut reader), Err(ID3Error::NotEnoughBytes)));
    assert_eq!(reader.remaining(), 0);
    // Not even a header.
    for len in 0..10 {
        let mut reader = Reader::new(vec![0x54; len]);
        assert!(matches!(Frame::from_reader(&mut reader), Err(ID3Error::NotEnoughBytes)));
        assert_eq!(reader.remaining(), 0);
    }
}

#[test]
fn frames_are_read_one_after_another() {
    let mut bytes = vec![0x54, 0x49, 0x54, 0x32, 0, 0, 0, 2, 0, 0, 0xAA, 0xBB];
    bytes.extend_from_slice(&[0x54, 0x50, 0x45, 0x31, 0, 0, 0, 1, 0, 0, 0xCC]);
    let mut reader = Reader::new(bytes);
    let first = Frame::from_reader(&mut reader).unwrap();
    let second = Frame::from_reader(&mut reader).unwrap();
    assert_eq!((first.id(), first.data), ("TIT2".to_string(), vec![0xAA, 0xBB]));
    assert_eq!((second.id(), second.data), ("TPE1".to_string(), vec![0xCC]));
    assert!(matches!(Frame::from_reader(&mut reader), Err(ID3Error::NotEnoughBytes)));
}

#[test]
fn frame_id_keeps_all_four_characters() {
    let frame = Frame { id: [0x41, 0x00, 0x7F, 0x20], size: [0; 4], flags: [0; 2], data: Vec::new() };
    assert_eq!(frame.id(), "A\u{0}\u{7f} ");
    let head = FrameHeader { frame_id: [0x30, 0x31, 0x32, 0x33], size: [0; 4], flags: [0; 2] };
    assert_eq!(head.id(), "0123");
}

fn frame_bytes(id: &[u8; 4], payload: &[u8]) -> Vec<u8> {
    let mut bytes = id.to_vec();
    bytes.extend_from_slice(&(payload.len() as u32).to_be_bytes());
    bytes.extend_from_slice(&[0, 0]);
    bytes.extend_from_slice(payload);
    bytes
}

#[test]
fn frames_fill_the_declared_size() {
    let mut body = frame_bytes(b"TIT2", &[1, 2, 3]);
    body.extend(frame_bytes(b"TPE1", &[]));
    body.extend(frame_bytes(b"TALB", &[9; 20]));
    let size = body.len() as u32;
    assert_eq!(size, 13 + 10 + 30);
    body.extend_from_slice(&[0xFF, 0xFB, 0x90]);
    let mut reader = Reader::new(body);
    let frames = id3::read_frames(&mut reader, size).unwrap();
    assert_eq!(frames.len(), 3);
    assert_eq!((frames[0].id(), frames[0].data.clone()), ("TIT2".to_string(), vec![1, 2, 3]));
    assert_eq!((frames[1].id(), frames[1].data.clone()), ("TPE1".to_string(), vec![]));
    assert_eq!((frames[2].id(), frames[2].data.clone()), ("TALB".to_string(), vec![9; 20]));
    for frame in &frames {
        assert_eq!(frame.data.len(), frame.size() as usize);
    }
    // What follows the declared size is left in the source.
    assert_eq!(reader.read_n_bytes(3).unwrap(), vec![0xFF, 0xFB, 0x90]);
}

#[test]
fn frames_of_an_empty_body() {
    let mut reader = Reader::new(vec![1, 2, 3]);
    let frames = id3::read_frames(&mut reader, 0).unwrap();
    assert!(frames.is_empty());
    assert_eq!(reader.remaining(), 3);
    let mut reader = Reader::new(Vec::new());
    assert!(id3::read_frames(&mut reader, 0).unwrap().is_empty());
}

#[test]
fn frames_never_reach_past_the_declared_size() {
    // The second frame declares a payload that ends after the tag does.
    let mut body = frame_bytes(b"TIT2", &[1, 2, 3]);
    body.extend(frame_bytes(b"TPE1", &[7; 8]));
    body.extend_from_slice(&[0xAA; 50]);
    let total = body.len();
    let mut reader = Reader::new(body);
    let size = 13 + 10 + 4;
    assert!(matches!(id3::read_frames(&mut reader, size), Err(ID3Error::NotEnoughBytes)));
    assert!(total - reader.remaining() <= size as usize);
    assert_eq!(total - reader.remaining(), 23);
}

#[test]
fn frames_need_room_for_a_header() {
    let mut body = frame_bytes(b"TIT2", &[1, 2, 3]);
    body.extend_from_slice(&[0; 20]);
    let total = body.len();
    for extra in 1..10u32 {
        let mut reader = Reader::new(body.clone());
        assert!(matches!(id3::read_frames(&mut reader, 13 + extra), Err(ID3Error::NotEnoughBytes)));
        assert_eq!(total - reader.remaining(), 13);
    }
}

#[test]
fn frames_from_a_source_that_ends_early() {
    let mut body = frame_bytes(b"TIT2", &[1, 2, 3]);
    body.extend(frame_bytes(b"TPE1", &[7; 8]));
    let size = body.len() as u32;
    // Cut in the second payload, in the second header, and in the first header.
    for keep in [body.len() - 1, 17, 5, 0] {
        let mut reader = Reader::new(body[..keep].to_vec());
        assert!(matches!(id3::read_frames(&mut reader, size), Err(ID3Error::NotEnoughBytes)));
        assert_eq!(reader.remaining(), 0);
    }
}

#[test]
fn frames_of_the_largest_declared_size() {
    let mut reader = Reader::new(frame_bytes(b"TIT2", &[1, 2, 3]));
    assert!(matches!(id3::read_frames(&mut reader, u32::MAX), Err(ID3Error::NotEnoughBytes)));
    let mut reader = Reader::new(vec![0x54, 0x49, 0x54, 0x32, 0xFF, 0xFF, 0xFF, 0xFF, 0, 0, 1]);
    assert!(matches!(id3::read_frames(&mut reader, u32::MAX), Err(ID3Error::NotEnoughBytes)));
    assert_eq!(reader.remaining(), 1);
}

use minecrevy_io::McError;
use minecrevy_io::McReader;
use minecrevy_io::PacketFrame;

#[test]
fn empty_frame_round_trip_is_two_bytes() {
    let frame = PacketFrame::new(0, Vec::new());
    assert_eq!(frame.content_len(), 1);
    assert_eq!(frame.len(), 2);

    let mut wire: Vec<u8> = Vec::new();
    frame.write_sync(&mut wire).unwrap();
    assert_eq!(wire, vec![0x01, 0x00]);

    let mut reader = McReader::new(&wire);
    let back = PacketFrame::read_sync(&mut reader).unwrap();
    assert_eq!(back.id(), 0);
    assert_eq!(back.content_len(), 1);
    let mut body = back.reader();
    assert_eq!(body.remaining_len(), 0);
}

#[test]
fn frame_with_payload_round_trips() {
    let frame = PacketFrame::new(25565, vec![0xAB, 0xCD, 0xEF]);
    let mut wire: Vec<u8> = Vec::new();
    frame.write_sync(&mut wire).unwrap();
    // varint(6) | varint(25565) | payload
    assert_eq!(wire, vec![0x06, 0xDD, 0xC7, 0x01, 0xAB, 0xCD, 0xEF]);

    let mut reader = McReader::new(&wire);
    let back = PacketFrame::read_sync(&mut reader).unwrap();
    assert_eq!(back.id(), 25565);
    assert_eq!(back.content_len(), 6);
    let mut body = back.reader();
    assert_eq!(body.take_bytes(3).unwrap(), vec![0xAB, 0xCD, 0xEF]);
}

#[test]
fn content_split_into_id_and_body() {
    let frame = PacketFrame::read_content(vec![0x2A, 0x01, 0x02], 3).unwrap();
    assert_eq!(frame.id(), 42);
    assert_eq!(frame.content_len(), 3);
    let mut body = frame.reader();
    assert_eq!(body.take_bytes(2).unwrap(), vec![0x01, 0x02]);
}

#[test]
fn declared_length_longer_than_stream_is_truncated() {
    // declares 5 content bytes but only 2 follow
    let mut reader = McReader::new(&[0x05, 0x00, 0x00]);
    assert_eq!(
        PacketFrame::read_sync(&mut reader),
        Err(McError::TruncatedStream)
    );
}

#[test]
fn empty_declared_content_is_truncated() {
    // a declared length of zero leaves no bytes for the id
    let mut reader = McReader::new(&[0x00]);
    assert_eq!(
        PacketFrame::read_sync(&mut reader),
        Err(McError::TruncatedStream)
    );
}

#[test]
fn writer_access_drops_the_cached_length() {
    let wire = vec![0x01, 0x2A];
    let mut reader = McReader::new(&wire);
    let mut frame = PacketFrame::read_sync(&mut reader).unwrap();
    assert_eq!(frame.id(), 42);
    assert_eq!(frame.content_len(), 1);

    frame.writer().extend_from_slice(&[0x07, 0x08]);
    // recomputed fresh: varint(42) is one byte, plus two body bytes
    assert_eq!(frame.content_len(), 3);

    let mut wire2: Vec<u8> = Vec::new();
    frame.write_sync(&mut wire2).unwrap();
    assert_eq!(wire2, vec![0x03, 0x2A, 0x07, 0x08]);
}

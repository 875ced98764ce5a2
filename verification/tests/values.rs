use minecrevy_io::McError;
use minecrevy_io::McRead;
use minecrevy_io::McReader;
use minecrevy_io::McWrite;

fn write_all<T: McWrite>(v: &T) -> Vec<u8> {
    let mut out: Vec<u8> = Vec::new();
    v.write(&mut out).unwrap();
    out
}

#[test]
fn record_of_u8_and_i32_decodes_in_declaration_order() {
    let bytes = [0x05, 0x00, 0x00, 0x01, 0x00];
    let mut reader = McReader::new(&bytes);
    let (a, b) = <(u8, i32)>::read(&mut reader).unwrap();
    assert_eq!(a, 5);
    assert_eq!(b, 256);
}

#[test]
fn record_encode_mirrors_decode() {
    let record: (u8, i32) = (5, 256);
    assert_eq!(write_all(&record), vec![0x05, 0x00, 0x00, 0x01, 0x00]);
}

#[test]
fn nested_records_compose() {
    let record: (u16, (bool, u8)) = (0x1234, (true, 7));
    let bytes = write_all(&record);
    assert_eq!(bytes, vec![0x12, 0x34, 0x01, 0x07]);
    let mut reader = McReader::new(&bytes);
    let back = <(u16, (bool, u8))>::read(&mut reader).unwrap();
    assert_eq!(back, (0x1234, (true, 7)));
}

#[test]
fn fixed_width_integers_are_big_endian() {
    assert_eq!(write_all(&0x12u8), vec![0x12]);
    assert_eq!(write_all(&0x1234u16), vec![0x12, 0x34]);
    assert_eq!(write_all(&0x12345678u32), vec![0x12, 0x34, 0x56, 0x78]);
    assert_eq!(
        write_all(&0x0123456789ABCDEFu64),
        vec![0x01, 0x23, 0x45, 0x67, 0x89, 0xAB, 0xCD, 0xEF]
    );
    assert_eq!(write_all(&1u128).len(), 16);
    assert_eq!(write_all(&(-2i16)), vec![0xFF, 0xFE]);
    assert_eq!(write_all(&(-1i32)), vec![0xFF, 0xFF, 0xFF, 0xFF]);
}

#[test]
fn integers_round_trip() {
    let bytes = write_all(&(-123456789i64));
    let mut reader = McReader::new(&bytes);
    assert_eq!(i64::read(&mut reader), Ok(-123456789i64));

    let bytes = write_all(&0xDEADBEEFu32);
    let mut reader = McReader::new(&bytes);
    assert_eq!(u32::read(&mut reader), Ok(0xDEADBEEFu32));

    let big: i128 = -170141183460469231731687303715884105728i128;
    let bytes = write_all(&big);
    let mut reader = McReader::new(&bytes);
    assert_eq!(i128::read(&mut reader), Ok(big));
}

#[test]
fn truncated_integer_fails() {
    let mut reader = McReader::new(&[0x12, 0x34]);
    assert_eq!(u32::read(&mut reader), Err(McError::TruncatedStream));
}

#[test]
fn booleans_encode_as_one_byte() {
    assert_eq!(write_all(&true), vec![0x01]);
    assert_eq!(write_all(&false), vec![0x00]);
}

#[test]
fn boolean_decode_treats_any_nonzero_byte_as_true() {
    for (byte, expected) in [(0x00u8, false), (0x01, true), (0x7F, true), (0xFF, true)] {
        let bytes = [byte];
        let mut reader = McReader::new(&bytes);
        assert_eq!(bool::read(&mut reader), Ok(expected));
    }
}

#[test]
fn text_round_trips_with_byte_count_prefix() {
    let s = "héllo".to_string();
    let bytes = write_all(&s);
    // 6 UTF-8 bytes (not 5 characters), then the bytes themselves
    assert_eq!(bytes[0], 6);
    assert_eq!(&bytes[1..], s.as_bytes());
    let mut reader = McReader::new(&bytes);
    assert_eq!(String::read(&mut reader), Ok(s));
}

#[test]
fn text_length_prefix_past_stream_end_is_truncated() {
    // declares 9 text bytes but only 2 follow
    let bytes = [0x09, 0x61, 0x62];
    let mut reader = McReader::new(&bytes);
    assert_eq!(String::read(&mut reader), Err(McError::TruncatedStream));
}

#[test]
fn malformed_utf8_text_fails() {
    // two bytes declared: a lone continuation byte is not UTF-8
    let bytes = [0x02, 0x61, 0x80];
    let mut reader = McReader::new(&bytes);
    assert_eq!(String::read(&mut reader), Err(McError::InvalidUtf8));
}

#[test]
fn read_into_replaces_the_value() {
    let bytes = [0x00, 0x2A];
    let mut reader = McReader::new(&bytes);
    let mut v: u16 = 7;
    v.read_into(&mut reader).unwrap();
    assert_eq!(v, 42);
    assert_eq!(reader.remaining_len(), 0);
}

use minecrevy_io::McError;
use minecrevy_io::McReader;
use minecrevy_io::ReadMcExt;
use minecrevy_io::WriteMcExt;
use minecrevy_io::var_i32_byte_length;

fn encode(v: i32) -> Vec<u8> {
    let mut out: Vec<u8> = Vec::new();
    out.write_var_i32(v);
    out
}

fn decode(bytes: &[u8]) -> Result<i32, McError> {
    let mut reader = McReader::new(bytes);
    reader.read_var_i32()
}

#[test]
fn encodes_25565_exactly() {
    assert_eq!(encode(25565), vec![0xDD, 0xC7, 0x01]);
}

#[test]
fn decodes_25565_exactly() {
    assert_eq!(decode(&[0xDD, 0xC7, 0x01]), Ok(25565));
}

#[test]
fn round_trips_edge_values() {
    for v in [0, -1, i32::MIN, i32::MAX, 1, 127, 128, 25565, -25565] {
        assert_eq!(decode(&encode(v)), Ok(v));
    }
}

#[test]
fn zero_encodes_as_a_single_zero_byte() {
    assert_eq!(encode(0), vec![0x00]);
}

#[test]
fn byte_length_matches_encoding_length() {
    for v in [0, -1, i32::MIN, i32::MAX, 1, 127, 128, 16383, 16384, 25565] {
        assert_eq!(var_i32_byte_length(v), encode(v).len());
    }
}

#[test]
fn extreme_values_encode_exactly() {
    assert_eq!(encode(-1), vec![0xFF, 0xFF, 0xFF, 0xFF, 0x0F]);
    assert_eq!(encode(i32::MIN), vec![0x80, 0x80, 0x80, 0x80, 0x08]);
    assert_eq!(encode(i32::MAX), vec![0xFF, 0xFF, 0xFF, 0xFF, 0x07]);
    assert_eq!(encode(127), vec![0x7F]);
    assert_eq!(encode(128), vec![0x80, 0x01]);
}

#[test]
fn sixth_continuation_byte_is_malformed() {
    assert_eq!(
        decode(&[0xFF, 0xFF, 0xFF, 0xFF, 0xFF, 0xFF]),
        Err(McError::MalformedVarInt)
    );
}

#[test]
fn truncated_varint_fails() {
    assert_eq!(decode(&[0x80, 0x80]), Err(McError::TruncatedStream));
    assert_eq!(decode(&[]), Err(McError::TruncatedStream));
}

#[test]
fn negative_length_is_invalid() {
    // -1 as a VarInt
    let mut reader = McReader::new(&[0xFF, 0xFF, 0xFF, 0xFF, 0x0F]);
    assert_eq!(reader.read_var_i32_length(), Err(McError::InvalidLength));
}

#[test]
fn length_write_rejects_values_over_i32_max() {
    let mut out: Vec<u8> = Vec::new();
    assert_eq!(
        out.write_var_i32_length(usize::MAX),
        Err(McError::InvalidLength)
    );
    assert!(out.is_empty());
    assert_eq!(out.write_var_i32_length(300), Ok(()));
    assert_eq!(out, vec![0xAC, 0x02]);
}

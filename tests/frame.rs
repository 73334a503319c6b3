use redis_lite::errors::FrameErrors;
use redis_lite::frame::{
    decode_integer, encode_bulk_string, encode_null, encode_simple_string, get_input_length,
    get_position, is_special_byte, Frame,
};

fn buffer_of(bytes: &[u8]) -> Vec<u8> {
    let mut buffer = Vec::with_capacity(64);
    buffer.extend_from_slice(bytes);
    buffer
}

#[test]
fn test_parse_simple_string() {
    let buffer = buffer_of(b"+OK\r\n");

    let frame = Frame::from_bytes(&buffer).unwrap();
    let expected = Frame::SimpleString(b"OK".to_vec());

    assert_eq!(expected, frame);
}

#[test]
fn test_parse_integer() {
    let mut buffer = buffer_of(b":22\r\n");
    let frame = Frame::from_bytes(&buffer).unwrap();
    let expected = Frame::Integer(22);
    assert_eq!(expected, frame);

    buffer.clear();
    buffer.extend_from_slice(b":+423232341231233\r\n");
    let frame = Frame::from_bytes(&buffer).unwrap();
    let expected = Frame::Integer(423232341231233);
    assert_eq!(expected, frame);

    buffer.clear();
    buffer.extend_from_slice(b":-22\r\n");
    let frame = Frame::from_bytes(&buffer).unwrap();
    let expected = Frame::Integer(-22);
    assert_eq!(expected, frame);
}

#[test]
fn test_parse_bulk_string() {
    let buffer = buffer_of(b"$5\r\nhello\r\n");

    let frame = Frame::from_bytes(&buffer).unwrap();
    let expected = Frame::BulkString(b"hello".to_vec());

    assert_eq!(expected, frame);
}

#[test]
fn test_parse_bulk_string_with_incorrect_length() {
    let mut buffer = buffer_of(b"$4\r\nhello\r\n");
    assert_eq!(
        Frame::from_bytes(&buffer).unwrap_err(),
        FrameErrors::IncorrectBulkStringLength
    );

    buffer.clear();
    buffer.extend_from_slice(b"$6\r\nhello\r\n");
    assert_eq!(
        Frame::from_bytes(&buffer).unwrap_err(),
        FrameErrors::IncorrectBulkStringLength
    );
}

#[test]
fn test_parse_array() {
    let buffer = buffer_of(b"*2\r\n$5\r\nhello\r\n$5\r\nworld\r\n");
    let frame = Frame::from_bytes(&buffer).unwrap();
    let expected = Frame::Array(vec![
        Frame::BulkString(b"hello".to_vec()),
        Frame::BulkString(b"world".to_vec()),
    ]);

    assert_eq!(expected, frame);
}

#[test]
fn test_parse_incorrect_command() {
    let mut buffer = buffer_of(b":-");
    assert_eq!(
        Frame::from_bytes(&buffer).unwrap_err(),
        FrameErrors::MissingCRLF
    );

    buffer.clear();
    buffer.extend_from_slice(b"+OK\r");
    assert_eq!(
        Frame::from_bytes(&buffer).unwrap_err(),
        FrameErrors::MissingCRLF
    );

    buffer.clear();
    buffer.extend_from_slice(b"*2\r\n$5\r\nhell\r\n$5\r\nworld\r\n"); // wrong first item len
    assert_eq!(
        Frame::from_bytes(&buffer).unwrap_err(),
        FrameErrors::IncorrectBulkStringLength
    );
}

#[test]
fn test_encode_simple_string() {
    let input = b"Simple".to_vec();
    let expected = b"+Simple\r\n";
    assert_eq!(encode_simple_string(&input), expected);
}

#[test]
fn test_encode_null() {
    let expected = b"$-1\r\n";
    assert_eq!(encode_null(), expected);
}

#[test]
fn test_encode_bulk_string() {
    let input = b"hello".to_vec();
    let expected = b"$5\r\nhello\r\n";
    assert_eq!(encode_bulk_string(&input), expected);
}

#[test]
fn round_trip_simple_string() {
    let frame = Frame::SimpleString(b"hi there\n".to_vec());
    let bytes = frame.as_resp_bytes();
    assert_eq!(Frame::from_bytes(&bytes).unwrap(), frame);
}

#[test]
fn round_trip_bulk_string() {
    let frame = Frame::BulkString(b"0123456789abc".to_vec());
    let bytes = frame.as_resp_bytes();
    assert_eq!(bytes, b"$13\r\n0123456789abc\r\n".to_vec());
    assert_eq!(Frame::from_bytes(&bytes).unwrap(), frame);
}

#[test]
fn round_trip_empty_bulk_string() {
    let frame = Frame::BulkString(Vec::new());
    let bytes = frame.as_resp_bytes();
    assert_eq!(bytes, b"$0\r\n\r\n".to_vec());
    assert_eq!(Frame::from_bytes(&bytes).unwrap(), frame);
}

#[test]
fn null_is_not_decoded() {
    let bytes = Frame::Null.as_resp_bytes();
    assert_eq!(
        Frame::from_bytes(&bytes).unwrap_err(),
        FrameErrors::IncorrectBulkStringLength
    );
}

#[test]
fn empty_and_short_input_miss_crlf() {
    assert_eq!(Frame::from_bytes(b"").unwrap_err(), FrameErrors::MissingCRLF);
    assert_eq!(Frame::from_bytes(b"\n").unwrap_err(), FrameErrors::MissingCRLF);
}

#[test]
fn unknown_type_tag() {
    assert_eq!(
        Frame::from_bytes(b"!x\r\n").unwrap_err(),
        FrameErrors::IncorrectFirstByte(b'!')
    );
}

#[test]
fn array_item_must_be_bulk_string() {
    assert_eq!(
        Frame::from_bytes(b"*1\r\n+OK\r\n\r\n").unwrap_err(),
        FrameErrors::WrongArrayItemFormat
    );
}

#[test]
fn truncated_array() {
    assert_eq!(
        Frame::from_bytes(b"*2\r\n$5\r\nhello\r\n").unwrap_err(),
        FrameErrors::WrongArrayItemFormat
    );
}

#[test]
fn empty_and_negative_count_arrays() {
    assert_eq!(Frame::from_bytes(b"*0\r\n").unwrap(), Frame::Array(Vec::new()));
    assert_eq!(Frame::from_bytes(b"*-3\r\n").unwrap(), Frame::Array(Vec::new()));
}

#[test]
fn bulk_string_with_embedded_newline_is_refused() {
    assert_eq!(
        Frame::from_bytes(b"$3\r\na\nb\r\n").unwrap_err(),
        FrameErrors::IncorrectBulkStringLength
    );
}

#[test]
fn integer_decoding_wraps() {
    // 2^63 wraps to i64::MIN
    assert_eq!(decode_integer(b"9223372036854775808\r\n"), Ok(i64::MIN));
    assert_eq!(decode_integer(b"-7\r\n"), Ok(-7));
    assert_eq!(decode_integer(b"12"), Err(FrameErrors::MissingCRLF));
}

#[test]
fn positions_and_special_bytes() {
    assert_eq!(get_position(b"ab\ncd\n", b'\n'), Some(2));
    assert_eq!(get_position(b"abcd", b'\n'), None);
    assert_eq!(get_input_length(b"123\r\n"), Ok(3));
    assert_eq!(get_input_length(b"123"), Err(FrameErrors::MissingCRLF));
    assert!(is_special_byte(&b'\r'));
    assert!(is_special_byte(&b'\n'));
    assert!(!is_special_byte(&b'a'));
}

#[test]
fn string_interpretation() {
    assert_eq!(Frame::BulkString(b"h\xc3\xa9".to_vec()).as_string(), Ok("hé".to_string()));
    assert_eq!(Frame::SimpleString(b"OK".to_vec()).as_string(), Ok("OK".to_string()));
    assert_eq!(
        Frame::BulkString(vec![0xff, 0xfe]).as_string(),
        Err(FrameErrors::StringInterpretationError)
    );
    assert_eq!(
        Frame::Integer(3).as_string(),
        Err(FrameErrors::StringInterpretationError)
    );
}

#[test]
fn duplicate_copies_nested_frames() {
    let frame = Frame::Array(vec![Frame::Integer(4), Frame::Array(vec![Frame::Null])]);
    assert_eq!(frame.duplicate(), frame);
}

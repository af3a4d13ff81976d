use resp_kv::parser::{parse, parse_array, parse_bulk_string, DecodeError, RespType};

fn bulk(text: &str) -> RespType {
    RespType::BulkString(text.as_bytes().to_vec())
}

#[test]
fn it_works() {
    let input = "*1\r\n$4\r\nPING\r\n".as_bytes();
    let result = parse(input, 0);

    let expected = vec![RespType::BulkString("PING".as_bytes().to_vec())];

    assert_eq!(result, Ok((RespType::Array(expected), 14)));
}

#[test]
fn it_works_with_multiple_values() {
    let input = "*2\r\n$4\r\nPING\r\n$4\r\nPONG\r\n".as_bytes();
    let result = parse(input, 0);

    let expected = vec![
        RespType::BulkString("PING".as_bytes().to_vec()),
        RespType::BulkString("PONG".as_bytes().to_vec()),
    ];

    assert_eq!(result, Ok((RespType::Array(expected), 24)));
}

#[test]
fn empty_input_is_end_of_stream() {
    assert_eq!(parse(b"", 0), Err(DecodeError::EndOfStream));
}

#[test]
fn offset_at_or_past_the_end_is_end_of_stream() {
    let input = b"$1\r\na\r\n";
    assert_eq!(parse(input, 7), Err(DecodeError::EndOfStream));
    assert_eq!(parse(input, 100), Err(DecodeError::EndOfStream));
}

#[test]
fn unknown_type_byte_is_rejected() {
    assert_eq!(parse(b"+OK\r\n", 0), Err(DecodeError::UnknownType));
    assert_eq!(parse(b":1\r\n", 0), Err(DecodeError::UnknownType));
    assert_eq!(parse(b"PING\r\n", 0), Err(DecodeError::UnknownType));
}

#[test]
fn non_numeric_length_is_rejected() {
    assert_eq!(parse(b"$abc\r\n", 0), Err(DecodeError::BadLength));
    assert_eq!(parse(b"*x\r\n", 0), Err(DecodeError::BadLength));
    assert_eq!(parse(b"$-1\r\n", 0), Err(DecodeError::BadLength));
    assert_eq!(parse(b"$ 4\r\nPING\r\n", 0), Err(DecodeError::BadLength));
    assert_eq!(parse(b"$4 \r\nPING\r\n", 0), Err(DecodeError::BadLength));
}

#[test]
fn empty_length_is_rejected() {
    assert_eq!(parse(b"$\r\n", 0), Err(DecodeError::BadLength));
    assert_eq!(parse(b"*\r\n", 0), Err(DecodeError::BadLength));
    assert_eq!(parse(b"$+\r\n", 0), Err(DecodeError::BadLength));
}

#[test]
fn header_line_shorter_than_two_bytes_is_rejected() {
    assert_eq!(parse(b"$\n", 0), Err(DecodeError::BadLength));
    assert_eq!(parse(b"$4\nPING\r\n", 0), Err(DecodeError::BadLength));
}

#[test]
fn length_that_overflows_is_rejected() {
    let input = b"$340282366920938463463374607431768211456\r\n";
    assert_eq!(parse(input, 0), Err(DecodeError::BadLength));
    let input = b"*99999999999999999999999999999999999999999999\r\n";
    assert_eq!(parse(input, 0), Err(DecodeError::BadLength));
}

#[test]
fn header_without_line_feed_is_truncated() {
    assert_eq!(parse(b"$", 0), Err(DecodeError::Truncated));
    assert_eq!(parse(b"$4", 0), Err(DecodeError::Truncated));
    assert_eq!(parse(b"$4\r", 0), Err(DecodeError::Truncated));
    assert_eq!(parse(b"*1", 0), Err(DecodeError::Truncated));
    assert_eq!(parse(b"$abc", 0), Err(DecodeError::Truncated));
}

#[test]
fn short_body_is_truncated() {
    assert_eq!(parse(b"$4\r\nPIN", 0), Err(DecodeError::Truncated));
    assert_eq!(parse(b"$4\r\nPING", 0), Err(DecodeError::Truncated));
    assert_eq!(parse(b"$4\r\nPING\r", 0), Err(DecodeError::Truncated));
    assert_eq!(parse(b"$0\r\n", 0), Err(DecodeError::Truncated));
}

#[test]
fn huge_declared_length_is_truncated() {
    let input = format!("${}\r\nabc\r\n", usize::MAX);
    assert_eq!(parse(input.as_bytes(), 0), Err(DecodeError::Truncated));
    let input = format!("${}\r\nabc\r\n", usize::MAX - 1);
    assert_eq!(parse(input.as_bytes(), 0), Err(DecodeError::Truncated));
}

#[test]
fn array_with_missing_elements_is_truncated() {
    assert_eq!(parse(b"*1\r\n", 0), Err(DecodeError::Truncated));
    assert_eq!(parse(b"*2\r\n$4\r\nPING\r\n", 0), Err(DecodeError::Truncated));
    assert_eq!(parse(b"*2\r\n$4\r\nPING\r\n$4\r\nPO", 0), Err(DecodeError::Truncated));
    let input = format!("*{}\r\n", usize::MAX);
    assert_eq!(parse(input.as_bytes(), 0), Err(DecodeError::Truncated));
}

#[test]
fn error_inside_an_array_is_passed_on() {
    assert_eq!(parse(b"*2\r\n$4\r\nPING\r\n+OK\r\n", 0), Err(DecodeError::UnknownType));
    assert_eq!(parse(b"*1\r\n$x\r\n", 0), Err(DecodeError::BadLength));
    assert_eq!(parse(b"*1\r\n*1\r\n", 0), Err(DecodeError::Truncated));
}

#[test]
fn empty_array_and_empty_string() {
    assert_eq!(parse(b"*0\r\n", 0), Ok((RespType::Array(vec![]), 4)));
    assert_eq!(parse(b"$0\r\n\r\n", 0), Ok((bulk(""), 6)));
}

#[test]
fn nested_arrays() {
    let input = b"*2\r\n*1\r\n$1\r\na\r\n*0\r\n";
    let expected = RespType::Array(vec![
        RespType::Array(vec![bulk("a")]),
        RespType::Array(vec![]),
    ]);
    assert_eq!(parse(input, 0), Ok((expected, 19)));
}

#[test]
fn only_the_first_value_is_taken() {
    let input = b"$1\r\na\r\n$1\r\nb\r\n";
    assert_eq!(parse(input, 0), Ok((bulk("a"), 7)));
    assert_eq!(parse(input, 7), Ok((bulk("b"), 7)));
    assert_eq!(parse(input, 14), Err(DecodeError::EndOfStream));
}

#[test]
fn content_is_taken_byte_for_byte() {
    let input = b"$6\r\n\r\n$\xff\x00*\r\n";
    assert_eq!(
        parse(input, 0),
        Ok((RespType::BulkString(vec![0x0d, 0x0a, 0x24, 0xff, 0x00, 0x2a]), 12))
    );
}

#[test]
fn trailing_bytes_of_a_string_are_not_examined() {
    assert_eq!(parse(b"$4\r\nPINGxy", 0), Ok((bulk("PING"), 10)));
}

#[test]
fn header_line_must_end_in_carriage_return_and_line_feed() {
    assert_eq!(parse(b"$4x\nPING\r\n", 0), Err(DecodeError::BadLength));
    assert_eq!(parse(b"*1 \n$1\r\na\r\n", 0), Err(DecodeError::BadLength));
    assert_eq!(parse(b"$4\nPING\r\n", 0), Err(DecodeError::BadLength));
    assert_eq!(parse(b"*1\n$1\r\na\r\n", 0), Err(DecodeError::BadLength));
    assert_eq!(parse(b"$44\nPING\r\n", 0), Err(DecodeError::BadLength));
}

#[test]
fn bare_line_feed_does_not_shorten_the_count() {
    assert_eq!(parse_bulk_string(b"12\nab\r\n", 0), Err(DecodeError::BadLength));
    assert_eq!(parse(b"$12\nab\r\n", 0), Err(DecodeError::BadLength));
    assert_eq!(parse_array(b"10\n", 0), Err(DecodeError::BadLength));
}

#[test]
fn carriage_return_alone_does_not_end_the_line() {
    assert_eq!(parse(b"$4\rPING\r\n", 0), Err(DecodeError::BadLength));
    assert_eq!(parse(b"$4\r", 0), Err(DecodeError::Truncated));
}

#[test]
fn header_line_of_a_line_break_alone_declares_nothing() {
    assert_eq!(parse(b"$\r\n", 0), Err(DecodeError::BadLength));
    assert_eq!(parse(b"*\r\n\r\n", 0), Err(DecodeError::BadLength));
}

#[test]
fn header_line_ends_at_the_first_line_feed() {
    assert_eq!(parse(b"*1\n\n$1\r\na\r\n", 0), Err(DecodeError::BadLength));
    assert_eq!(parse(b"$1\r\r\na\r\n", 0), Err(DecodeError::BadLength));
}

#[test]
fn plus_sign_and_leading_zeros_in_a_length() {
    assert_eq!(parse(b"$+4\r\nPING\r\n", 0), Ok((bulk("PING"), 11)));
    assert_eq!(parse(b"$004\r\nPING\r\n", 0), Ok((bulk("PING"), 12)));
    assert_eq!(parse(b"*+00\r\n", 0), Ok((RespType::Array(vec![]), 6)));
}

#[test]
fn parse_bulk_string_starts_behind_the_type_byte() {
    let input = b"$4\r\nPING\r\n";
    assert_eq!(parse_bulk_string(input, 1), Ok((bulk("PING"), 9)));
    assert_eq!(parse_bulk_string(input, 0), Err(DecodeError::BadLength));
    assert_eq!(parse_bulk_string(input, 10), Err(DecodeError::Truncated));
    assert_eq!(parse_bulk_string(input, 11), Err(DecodeError::Truncated));
}

#[test]
fn parse_array_starts_behind_the_type_byte() {
    let input = b"*2\r\n$1\r\na\r\n$2\r\nbc\r\n";
    assert_eq!(
        parse_array(input, 1),
        Ok((RespType::Array(vec![bulk("a"), bulk("bc")]), 18))
    );
    assert_eq!(parse_array(b"*1\r\n", 1), Err(DecodeError::Truncated));
    assert_eq!(parse_array(b"*1\r\n", 4), Err(DecodeError::Truncated));
}

#[test]
fn end_of_stream_inside_an_array_is_truncation() {
    assert_eq!(parse_array(b"3\r\n$1\r\na\r\n", 0), Err(DecodeError::Truncated));
}

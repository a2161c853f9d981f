use aether_cache::frame::Frame;
use aether_cache::parse::{
    consume_frame, find_crlf, non_negative_length, parse_frame, parse_length, validate_array, validate_bulk_string,
    validate_frame,
};
use bytes::{Bytes, BytesMut};

fn buffer_of(input: &[u8]) -> BytesMut {
    BytesMut::from(input)
}

fn bulk(payload: &'static [u8]) -> Frame {
    Frame::BulkString(Bytes::from_static(payload))
}

fn rejection(input: &[u8]) -> String {
    let mut buffer = buffer_of(input);
    let message = parse_frame(&mut buffer).unwrap_err();
    assert_eq!(buffer, buffer_of(input));
    message
}

#[test]
fn parses_bulk_string_without_copying_payload() {
    let mut buffer = BytesMut::from(&b"$5\r\nhello\r\ntrailing"[..]);
    let payload_address = buffer.as_ptr() as usize + 4;

    let frame = parse_frame(&mut buffer).unwrap();

    let Frame::BulkString(payload) = frame.unwrap() else {
        panic!("expected bulk string");
    };
    assert_eq!(payload, Bytes::from_static(b"hello"));
    assert_eq!(payload.as_ptr() as usize, payload_address);
    assert_eq!(buffer, &b"trailing"[..]);
}

#[test]
fn incomplete_bulk_string_does_not_modify_buffer() {
    let mut buffer = BytesMut::from(&b"$5\r\nhel"[..]);
    let original = buffer.clone();

    assert_eq!(parse_frame(&mut buffer), Ok(None));
    assert_eq!(buffer, original);
}

#[test]
fn parses_nested_array() {
    let mut buffer = BytesMut::from(&b"*3\r\n$3\r\nGET\r\n$3\r\nkey\r\n$-1\r\n"[..]);

    assert_eq!(
        parse_frame(&mut buffer),
        Ok(Some(Frame::Array(vec![
            Frame::BulkString(Bytes::from_static(b"GET")),
            Frame::BulkString(Bytes::from_static(b"key")),
            Frame::Null,
        ])))
    );
    assert!(buffer.is_empty());
}

#[test]
fn incomplete_array_does_not_modify_buffer() {
    let mut buffer = BytesMut::from(&b"*2\r\n$3\r\none\r\n$3\r\ntw"[..]);
    let original = buffer.clone();

    assert_eq!(parse_frame(&mut buffer), Ok(None));
    assert_eq!(buffer, original);
}

#[test]
fn rejects_missing_bulk_payload_crlf_without_modifying_buffer() {
    let mut buffer = BytesMut::from(&b"$3\r\nabcXX"[..]);
    let original = buffer.clone();

    assert!(parse_frame(&mut buffer).is_err());
    assert_eq!(buffer, original);
}

#[test]
fn reports_a_missing_terminator() {
    assert_eq!(rejection(b"$3\r\nabcXX"), "bulk string payload is not terminated by CRLF");
}

#[test]
fn reports_an_unsupported_type() {
    assert_eq!(rejection(b"+3\r\n"), "unsupported RESP type byte: 0x2b");
    assert_eq!(rejection(b"\x053\r\n"), "unsupported RESP type byte: 0x05");
    assert_eq!(rejection(b"\xfe3\r\n"), "unsupported RESP type byte: 0xfe");
}

#[test]
fn an_unsupported_type_is_reported_once_its_length_is_read() {
    let mut buffer = buffer_of(b"+OK");
    assert_eq!(parse_frame(&mut buffer), Ok(None));
    assert_eq!(rejection(b"+OK\r\n"), "RESP length is not a valid integer");
}

#[test]
fn reports_a_length_that_is_no_text() {
    assert_eq!(rejection(b"$\xff\r\n"), "RESP length is not valid ASCII");
}

#[test]
fn reports_a_length_that_is_no_integer() {
    for length in ["", "+", "-", "x", "1 ", " 1", "1.0", "\u{663}", "9223372036854775808", "-9223372036854775809"] {
        let input = format!("${length}\r\n");
        assert_eq!(rejection(input.as_bytes()), "RESP length is not a valid integer");
    }
}

#[test]
fn reports_a_negative_length() {
    assert_eq!(rejection(b"$-2\r\n"), "invalid bulk string length: -2");
    assert_eq!(rejection(b"*-17\r\n"), "invalid array length: -17");
    assert_eq!(
        rejection(b"$-9223372036854775808\r\n"),
        "invalid bulk string length: -9223372036854775808"
    );
}

#[test]
fn a_bulk_string_of_the_largest_length_is_awaited() {
    let mut buffer = buffer_of(b"$9223372036854775807\r\n");
    assert_eq!(parse_frame(&mut buffer), Ok(None));
    let mut buffer = buffer_of(b"*9223372036854775807\r\n$0\r\n\r\n");
    assert_eq!(parse_frame(&mut buffer), Ok(None));
}

#[test]
fn offsets_beyond_the_input_are_answered() {
    let overflow = Err("bulk string length overflow".to_owned());
    assert_eq!(validate_bulk_string(b"$3\r\nabcX", 0, 4, 3), Ok(None));
    assert_eq!(validate_bulk_string(b"", 0, usize::MAX, 1), overflow);
    assert_eq!(validate_bulk_string(b"", 0, usize::MAX - 1, 0), overflow);
    assert_eq!(validate_bulk_string(b"", 0, 100, 3), Ok(None));
    assert_eq!(validate_frame(b"$", 9, 0), Ok(None));
    assert_eq!(validate_array(b"", 0, 100, 2, 0), Ok(None));
    assert_eq!(validate_array(b"", 0, 100, 0, 0), Ok(Some(100)));
    assert_eq!(parse_length(b"", usize::MAX), Err("frame offset overflow".to_owned()));
}

#[test]
fn every_depth_above_the_limit_is_answered() {
    let too_deep = Err("RESP array nesting limit exceeded".to_owned());
    assert_eq!(validate_frame(b"", 0, 129), too_deep);
    assert_eq!(validate_frame(b"$0\r\n\r\n", 0, 1_000), too_deep);
    assert_eq!(validate_frame(b"", 5, usize::MAX), too_deep);
    assert_eq!(validate_array(b"*1\r\n", 0, 4, 1, 500), too_deep);
    assert_eq!(validate_array(b"*0\r\n", 0, 4, 0, 500), Ok(Some(4)));
}

#[test]
fn reports_arrays_that_are_nested_too_deeply() {
    let mut deepest = b"*1\r\n".repeat(128);
    deepest.extend_from_slice(b"$1\r\nx\r\n");
    let mut buffer = buffer_of(&deepest);
    let mut frame = parse_frame(&mut buffer).unwrap().unwrap();
    let mut depth = 0;
    while let Frame::Array(mut elements) = frame {
        assert_eq!(elements.len(), 1);
        frame = elements.pop().unwrap();
        depth += 1;
    }
    assert_eq!(depth, 128);
    assert_eq!(frame, bulk(b"x"));

    let mut too_deep = b"*1\r\n".repeat(129);
    too_deep.extend_from_slice(b"$1\r\nx\r\n");
    assert_eq!(rejection(&too_deep), "RESP array nesting limit exceeded");
}

#[test]
fn lengths_may_carry_a_sign_and_leading_zeros() {
    let mut buffer = buffer_of(b"$+03\r\nabc\r\n");
    assert_eq!(parse_frame(&mut buffer), Ok(Some(bulk(b"abc"))));
    let mut buffer = buffer_of(b"*-1\r\n*-0\r\n");
    assert_eq!(parse_frame(&mut buffer), Ok(Some(Frame::Null)));
    assert_eq!(parse_frame(&mut buffer), Ok(Some(Frame::Array(vec![]))));
    assert!(buffer.is_empty());
}

#[test]
fn payloads_are_binary() {
    let mut buffer = buffer_of(b"$8\r\na\r\n\x00\xff\r\nb\r\n$0\r\n\r\n");
    assert_eq!(parse_frame(&mut buffer), Ok(Some(bulk(b"a\r\n\x00\xff\r\nb"))));
    assert_eq!(parse_frame(&mut buffer), Ok(Some(bulk(b""))));
    assert!(buffer.is_empty());
}

#[test]
fn a_decided_frame_does_not_depend_on_later_bytes() {
    let whole = b"*2\r\n$3\r\nGET\r\n$3\r\nkey\r\n";
    for cut in 0..whole.len() {
        let mut buffer = buffer_of(&whole[..cut]);
        assert_eq!(parse_frame(&mut buffer), Ok(None));
        buffer.extend_from_slice(&whole[cut..]);
        buffer.extend_from_slice(b"rest");
        assert_eq!(parse_frame(&mut buffer), Ok(Some(Frame::Array(vec![bulk(b"GET"), bulk(b"key")]))));
        assert_eq!(buffer, &b"rest"[..]);
    }
    assert_eq!(rejection(b"*1\r\n!1\r\n"), rejection(b"*1\r\n!1\r\nwhatever follows"));
}

#[test]
fn frames_are_measured_where_they_stand() {
    let input = b"..$2\r\nhi\r\n*1\r\n$-1\r\n";
    assert_eq!(validate_frame(input, 2, 0), Ok(Some(8)));
    assert_eq!(validate_frame(input, 10, 0), Ok(Some(9)));
    assert_eq!(validate_frame(input, input.len(), 0), Ok(None));
    assert_eq!(validate_frame(input, 2, 129), Err("RESP array nesting limit exceeded".to_owned()));
    assert_eq!(validate_bulk_string(input, 2, 6, 2), Ok(Some(8)));
    assert_eq!(validate_bulk_string(input, 2, 6, -1), Ok(Some(4)));
    assert_eq!(validate_array(input, 10, 14, 1, 0), Ok(Some(9)));
    assert_eq!(validate_array(input, 10, 14, 2, 0), Ok(None));
    assert_eq!(parse_length(input, 2), Ok(Some((2, 6))));
    assert_eq!(parse_length(b"$12", 0), Ok(None));
    assert_eq!(find_crlf(b"a\rb\r\n"), Some(3));
    assert_eq!(find_crlf(b"a\r"), None);
    assert_eq!(non_negative_length(7, "array"), Ok(7));
    assert_eq!(non_negative_length(-7, "array"), Err("invalid array length: -7".to_owned()));
}

#[test]
fn a_measured_frame_is_consumed() {
    let input = b"*2\r\n$2\r\nhi\r\n*1\r\n$-1\r\nrest";
    for depth in [0, 1, 126] {
        let mut buffer = buffer_of(input);
        let len = validate_frame(&buffer, 0, depth).unwrap().unwrap();
        assert_eq!(
            consume_frame(&mut buffer, depth),
            Ok(Frame::Array(vec![bulk(b"hi"), Frame::Array(vec![Frame::Null])]))
        );
        assert_eq!(buffer, &input[len..]);
        assert_eq!(buffer, &b"rest"[..]);
    }
    let mut buffer = buffer_of(input);
    assert_eq!(consume_frame(&mut buffer, 129), Err("RESP array nesting limit exceeded".to_owned()));
    assert_eq!(buffer, &input[..]);
}

#[test]
fn a_copy_of_a_frame_equals_it() {
    let frame = Frame::Array(vec![
        bulk(b"key"),
        Frame::Array(vec![Frame::Null, Frame::Integer(-5)]),
        Frame::SimpleString("ok".to_owned()),
        Frame::Error("ERR".to_owned()),
    ]);
    assert_eq!(frame.clone(), frame);
    assert_ne!(Frame::Array(vec![Frame::Null]), frame);
}

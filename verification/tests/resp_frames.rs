use bytes::{BufMut, BytesMut};
use simple_redis::resp::{calc_total_length, parse_length};
use simple_redis::{
    BulkString, RespArray, RespDecode, RespEncode, RespError, RespFrame, RespSet, SimpleString,
};

fn bulk(text: &str) -> RespFrame {
    RespFrame::BulkString(BulkString::new(text.as_bytes().to_vec()))
}

#[test]
fn test_simple_string_encode() {
    let frame = RespFrame::SimpleString(SimpleString::new("OK".to_string()));
    assert_eq!(frame.encode(), b"+OK\r\n")
}

#[test]
fn test_simple_string_decode() {
    let mut buf = BytesMut::new();
    buf.put_slice(b"+OK\r\n");

    let frame = SimpleString::decode(&mut buf).unwrap();
    assert_eq!(frame, SimpleString::new("OK".to_string()));

    buf.put_slice(b"+hello\r");
    let err = SimpleString::decode(&mut buf).unwrap_err();
    assert_eq!(err, RespError::NotComplete);

    buf.put_u8(b'\n');
    let frame = SimpleString::decode(&mut buf).unwrap();
    assert_eq!(frame, SimpleString::new("hello".to_string()));
}

#[test]
fn test_bulk_string_encode() {
    let frame = RespFrame::BulkString(BulkString::new(b"hello".to_vec()));
    assert_eq!(frame.encode(), b"$5\r\nhello\r\n");
}

#[test]
fn test_null_bulk_string_encode() {
    assert_eq!(BulkString::null_bulk_string_encode(), b"$-1\r\n");
}

#[test]
fn test_bulk_string_decode() {
    let mut buf = BytesMut::new();
    buf.put_slice(b"$5\r\nhello\r\n");
    let frame = BulkString::decode(&mut buf).unwrap();

    let expected_frame = BulkString::new(b"hello".to_vec());
    assert_eq!(frame, expected_frame);
}

#[test]
fn test_array_encode() {
    let frame = RespFrame::Array(RespArray::new(vec![bulk("set"), bulk("hello"), bulk("world")]));
    assert_eq!(
        frame.encode(),
        b"*3\r\n$3\r\nset\r\n$5\r\nhello\r\n$5\r\nworld\r\n"
    )
}

#[test]
fn test_null_array_encode() {
    let frame = RespFrame::Array(RespArray::new(vec![]));
    assert_eq!(frame.encode(), b"*-1\r\n")
}

#[test]
fn test_array_decode() {
    let mut buf = BytesMut::new();
    buf.put_slice(b"*3\r\n$3\r\nset\r\n$5\r\nhello\r\n$5\r\nworld\r\n");

    let frame = RespArray::decode(&mut buf).unwrap();
    assert_eq!(
        frame,
        RespArray::new(vec![bulk("set"), bulk("hello"), bulk("world")])
    );

    buf.put_slice(b"*2\r\n$3\r\nset\r\n");
    let err = RespArray::decode(&mut buf).unwrap_err();
    assert_eq!(err, RespError::NotComplete);

    buf.put_slice(b"$5\r\nhello\r\n");
    let frame = RespArray::decode(&mut buf).unwrap();
    assert_eq!(frame, RespArray::new(vec![bulk("set"), bulk("hello")]));
}

#[test]
fn test_null_array_decode() {
    let mut buf = BytesMut::new();
    buf.put_slice(b"*0\r\n\r\n");

    let frame = RespArray::decode(&mut buf).unwrap();
    assert_eq!(frame, RespArray::new(vec![]));
}

#[test]
fn test_boolean_encode() {
    let frame = RespFrame::Boolean(false);
    assert_eq!(frame.encode(), b"#f\r\n");

    let frame = RespFrame::Boolean(true);
    assert_eq!(frame.encode(), b"#t\r\n");
}

#[test]
fn test_boolean_decode() {
    let mut buf = BytesMut::new();
    buf.put_slice(b"#t\r\n");
    let frame = bool::decode(&mut buf).unwrap();
    assert!(frame);
    buf.put_slice(b"#f\r\n");
    let frame = bool::decode(&mut buf).unwrap();
    assert!(!frame);
}

#[test]
fn test_integer_encode() {
    let frame = RespFrame::Integer(123);
    assert_eq!(frame.encode(), b":123\r\n");

    let frame = RespFrame::Integer(-123);
    assert_eq!(frame.encode(), b":-123\r\n");
}

#[test]
fn test_integer_decode() {
    let mut buf = BytesMut::new();
    buf.put_slice(b":123\r\n");
    let frame = i64::decode(&mut buf).unwrap();
    assert_eq!(frame, 123);

    buf.put_slice(b":-123\r\n");
    let frame = i64::decode(&mut buf).unwrap();
    assert_eq!(frame, -123);
}

#[test]
fn test_calc_array_length() {
    let buf = b"*3\r\n$3\r\nset\r\n$5\r\nhello\r\n$5\r\nworld\r\n";
    let prefix = "*";
    let (end, len) = parse_length(buf, prefix).unwrap();
    let total_len = calc_total_length(buf, end, len, prefix).unwrap();
    assert_eq!(total_len, buf.len());

    let buf = b"*3\r\n$3\r\nset\r\n";
    let prefix = "*";
    let (end, len) = parse_length(buf, prefix).unwrap();
    let err = calc_total_length(buf, end, len, prefix).unwrap_err();
    assert_eq!(err, RespError::NotComplete);
}

#[test]
fn test_set_encode() {
    let frame = RespFrame::RespSet(RespSet::new(vec![
        RespFrame::Array(RespArray::new(vec![
            RespFrame::Integer(1234),
            RespFrame::Boolean(true),
        ])),
        bulk("world"),
    ]));
    let data = frame.encode();
    // A non-negative integer is sent without a plus sign.
    assert_eq!(data, b"~2\r\n*2\r\n:1234\r\n#t\r\n$5\r\nworld\r\n");
    // The form with the plus sign is read as the same frame.
    let mut buf = BytesMut::new();
    buf.put_slice(b"~2\r\n*2\r\n:+1234\r\n#t\r\n$5\r\nworld\r\n");
    let frame = RespFrame::decode(&mut buf).unwrap();
    assert_eq!(frame.encode(), data);
}

#[test]
fn test_set_decode() {
    let mut buf = BytesMut::new();
    buf.put_slice(b"~2\r\n*2\r\n:+1234\r\n#t\r\n$5\r\nworld\r\n");
    let frame = RespSet::decode(&mut buf).unwrap();

    let expected_frame = RespSet::new(vec![
        RespFrame::Array(RespArray::new(vec![
            RespFrame::Integer(1234),
            RespFrame::Boolean(true),
        ])),
        bulk("world"),
    ]);
    assert_eq!(frame, expected_frame);
}

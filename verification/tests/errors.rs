use bytes::{BufMut, BytesMut};
use simple_redis::cmd::{validate_command, Command, CommandError, Get, HMGet};
use simple_redis::network::{error_reply, internal_error_reply};
use simple_redis::resp::decimal::parse_i64;
use simple_redis::resp::double::is_double;
use simple_redis::resp::{
    calc_total_length, extract_fixed_data, extract_simple_frame_data, find_crlf, parse_length,
};
use simple_redis::{
    BulkString, RespArray, RespDecode, RespDouble, RespError, RespFrame, RespSet, SimpleError,
    SimpleString,
};

fn bulk(text: &str) -> RespFrame {
    RespFrame::BulkString(BulkString::new(text.as_bytes().to_vec()))
}

fn decode(bytes: &[u8]) -> Result<RespFrame, RespError> {
    let mut buf = BytesMut::new();
    buf.put_slice(bytes);
    RespFrame::decode(&mut buf)
}

fn command(frames: Vec<RespFrame>) -> Result<Command, CommandError> {
    Command::try_from(RespFrame::Array(RespArray::new(frames)))
}

#[test]
fn an_unknown_marker_is_an_invalid_frame_type() {
    assert!(matches!(decode(b"?abc\r\n"), Err(RespError::InvalidFrameType(_))));
    assert!(matches!(decode(b"x"), Err(RespError::InvalidFrameType(_))));
    let mut buf = BytesMut::new();
    buf.put_slice(b":1\r\n");
    assert!(matches!(
        SimpleString::decode(&mut buf),
        Err(RespError::InvalidFrameType(_))
    ));
    assert_eq!(&buf[..], b":1\r\n");
    assert!(matches!(decode(b"#x\r\n"), Err(RespError::InvalidFrameType(_))));
    assert!(matches!(decode(b"_x\r\n"), Err(RespError::InvalidFrameType(_))));
}

#[test]
fn text_that_is_not_utf8_is_an_invalid_frame() {
    assert!(matches!(decode(b"+\xff\xfe\r\n"), Err(RespError::InvalidFrame(_))));
    assert!(matches!(decode(b"-\xc3\r\n"), Err(RespError::InvalidFrame(_))));
    assert!(matches!(
        decode(b"%1\r\n+\xff\r\n:1\r\n"),
        Err(RespError::InvalidFrame(_))
    ));
    assert_eq!(
        decode("+\u{e9}t\u{e9}\r\n".as_bytes()),
        Ok(RespFrame::SimpleString(SimpleString::new("\u{e9}t\u{e9}".to_string())))
    );
}

#[test]
fn a_negative_length_is_an_invalid_frame_length() {
    assert_eq!(decode(b"$-5\r\nhello\r\n"), Err(RespError::InvalidFrameLength(-5)));
    assert_eq!(decode(b"*-2\r\n"), Err(RespError::InvalidFrameLength(-2)));
    assert_eq!(decode(b"~-1\r\n"), Err(RespError::InvalidFrameLength(-1)));
    assert_eq!(decode(b"%-1\r\n"), Err(RespError::InvalidFrameLength(-1)));
    assert_eq!(
        parse_length(b"$-7\r\n", "$"),
        Err(RespError::InvalidFrameLength(-7))
    );
}

#[test]
fn a_number_that_is_none_is_a_parse_error() {
    assert!(matches!(decode(b":12a\r\n"), Err(RespError::ParseIntError(_))));
    assert!(matches!(decode(b":\r\n"), Err(RespError::ParseIntError(_))));
    assert!(matches!(decode(b":-\r\n"), Err(RespError::ParseIntError(_))));
    assert!(matches!(decode(b": 1\r\n"), Err(RespError::ParseIntError(_))));
    assert!(matches!(decode(b"$abc\r\n"), Err(RespError::ParseIntError(_))));
    assert!(matches!(
        decode(b":9223372036854775808\r\n"),
        Err(RespError::ParseIntError(_))
    ));
    assert_eq!(
        decode(b":-9223372036854775808\r\n"),
        Ok(RespFrame::Integer(i64::MIN))
    );
    assert_eq!(
        decode(b":9223372036854775807\r\n"),
        Ok(RespFrame::Integer(i64::MAX))
    );
    assert_eq!(decode(b":+007\r\n"), Ok(RespFrame::Integer(7)));
    assert_eq!(parse_i64(b"+7"), Some(7));
    assert_eq!(parse_i64(b"-0"), Some(0));
    assert_eq!(parse_i64(b""), None);
    assert_eq!(parse_i64(b"+"), None);
    assert_eq!(parse_i64(b"1_000"), None);
    assert_eq!(parse_i64(b"99999999999999999999999999"), None);
    assert_eq!(parse_i64(b"-9223372036854775809"), None);
}

#[test]
fn a_double_that_is_no_number_is_a_parse_error() {
    for text in ["abc", "1e", ".", "", "+", "1.2.3", "e5", "in", "nane", "1e+", "--1", "1 "] {
        let bytes = format!(",{}\r\n", text);
        assert!(
            matches!(decode(bytes.as_bytes()), Err(RespError::ParseFloatError(_))),
            "{}",
            text
        );
        assert!(!is_double(text.as_bytes()), "{}", text);
        assert_eq!(RespDouble::new(text.as_bytes().to_vec()), None);
    }
    for text in [
        "1", "1.", ".5", "+1.5E-3", "-0.0", "1e5", "1E+5", "Infinity", "-inf", "nan", "NAN",
        "007.250",
    ] {
        let bytes = format!(",{}\r\n", text);
        assert_eq!(
            decode(bytes.as_bytes()),
            Ok(RespFrame::Double(RespDouble(text.as_bytes().to_vec()))),
            "{}",
            text
        );
        assert!(is_double(text.as_bytes()), "{}", text);
    }
}

#[test]
fn bytes_that_end_too_soon_are_not_complete() {
    for bytes in [
        &b""[..],
        b"+",
        b"+OK",
        b"+OK\r",
        b"$",
        b"$5\r\nhell",
        b"$5\r\nhello\r",
        b"$-1\r",
        b"*",
        b"*1\r\n",
        b"*-1\r",
        b"#t\r",
        b"_\r",
        b",1.5",
        b"%1\r\n+k\r\n",
        b"~2\r\n:1\r\n",
    ] {
        assert_eq!(decode(bytes), Err(RespError::NotComplete), "{:?}", bytes);
    }
}

#[test]
fn the_words_of_each_error() {
    assert_eq!(
        RespError::invalid_frame().to_text(),
        "Invalid frame: text is not valid UTF-8"
    );
    assert_eq!(
        RespError::invalid_frame_type().to_text(),
        "Invalid frame type: unexpected frame marker"
    );
    assert_eq!(
        RespError::InvalidFrameLength(-12).to_text(),
        "Invalid frame length: -12"
    );
    assert_eq!(RespError::invalid_frame_length(40).to_text(), "Invalid frame length: 40");
    assert_eq!(RespError::NotComplete.to_text(), "Frame is not complete");
    assert_eq!(
        RespError::parse_int_error().to_text(),
        "Parse error: invalid digit found in string"
    );
    assert_eq!(
        RespError::parse_float_error().to_text(),
        "Parse error: invalid float literal"
    );
    assert_eq!(RespError::InternalServerError.to_text(), "Internal server error");
    assert_eq!(
        internal_error_reply(),
        RespFrame::Error(SimpleError::new("Internal server error".to_string()))
    );
    assert_eq!(
        CommandError::RespError(RespError::NotComplete).to_text(),
        "Frame is not complete"
    );
}

#[test]
fn a_request_that_is_no_array_is_an_invalid_command() {
    let err = Command::try_from(bulk("get")).unwrap_err();
    assert!(matches!(err, CommandError::InvalidCommand(_)));
    assert_eq!(err.to_text(), "Invalid command: Command must be an array");
    let err = command(vec![RespFrame::Integer(1), bulk("x")]).unwrap_err();
    assert!(matches!(err, CommandError::InvalidCommand(_)));
    assert_eq!(
        err.to_text(),
        "Invalid command: Command must have a BulkString as the first argument"
    );
    let err = command(vec![]).unwrap_err();
    assert!(matches!(err, CommandError::InvalidCommand(_)));
}

#[test]
fn the_wrong_number_of_arguments_names_the_command_and_the_number() {
    let err = command(vec![bulk("get")]).unwrap_err();
    assert!(matches!(err, CommandError::InvalidArgument(_)));
    assert_eq!(
        err.to_text(),
        "Invalid argument: get command must have exactly 1 argument"
    );
    let err = command(vec![bulk("GET"), bulk("a"), bulk("b")]).unwrap_err();
    assert_eq!(
        err.to_text(),
        "Invalid argument: get command must have exactly 1 argument"
    );
    let err = command(vec![bulk("hset"), bulk("h"), bulk("f")]).unwrap_err();
    assert_eq!(
        err.to_text(),
        "Invalid argument: hset command must have exactly 3 argument"
    );
    let err = command(vec![bulk("hmget"), bulk("h")]).unwrap_err();
    assert_eq!(
        err.to_text(),
        "Invalid argument: hmget command must have at least 2 argument"
    );
    let err = command(vec![bulk("sadd"), bulk("s")]).unwrap_err();
    assert_eq!(
        err.to_text(),
        "Invalid argument: sadd command must have at least 2 argument"
    );
    let request = RespArray::new(vec![bulk("x"), bulk("y"), bulk("k")]);
    let err = validate_command::<Get>(&request, &["x", "y"]).unwrap_err();
    assert_eq!(
        err.to_text(),
        "Invalid argument: x y command must have exactly 1 argument"
    );
}

#[test]
fn an_argument_of_the_wrong_kind_is_an_invalid_argument() {
    let err = command(vec![bulk("get"), RespFrame::Integer(1)]).unwrap_err();
    assert_eq!(err.to_text(), "Invalid argument: Invalid key");
    let err = command(vec![
        bulk("get"),
        RespFrame::BulkString(BulkString::null_bulk_string()),
    ])
    .unwrap_err();
    assert_eq!(err.to_text(), "Invalid argument: Invalid key");
    let err = command(vec![bulk("hget"), bulk("h"), RespFrame::Boolean(true)]).unwrap_err();
    assert_eq!(err.to_text(), "Invalid argument: Invalid key or field");
    let err = command(vec![
        bulk("hmget"),
        bulk("h"),
        bulk("f1"),
        RespFrame::Integer(2),
        bulk("f3"),
    ])
    .unwrap_err();
    assert_eq!(err.to_text(), "Invalid argument: Invalid key or fields");
    let err = command(vec![bulk("sadd"), RespFrame::Integer(2), bulk("v")]).unwrap_err();
    assert_eq!(err.to_text(), "Invalid argument: Invalid key or values");
}

#[test]
fn a_name_that_is_not_the_expected_one_is_an_invalid_argument() {
    let request = RespArray::new(vec![bulk("set"), bulk("k")]);
    let err = validate_command::<Get>(&request, &["get"]).unwrap_err();
    assert_eq!(err.to_text(), "Invalid argument: Invalid command: expected get");
    let request = RespArray::new(vec![RespFrame::Integer(1), bulk("k")]);
    let err = validate_command::<Get>(&request, &["get"]).unwrap_err();
    assert_eq!(
        err.to_text(),
        "Invalid argument: command name must be a BulkString"
    );
    let request = RespArray::new(vec![bulk("GeT"), bulk("k")]);
    assert!(validate_command::<Get>(&request, &["get"]).is_ok());
    let request = RespArray::new(vec![bulk("hmget"), bulk("k"), bulk("a"), bulk("b")]);
    assert!(validate_command::<HMGet>(&request, &["hmget"]).is_ok());
}

#[test]
fn a_key_that_is_not_utf8_is_a_utf8_error() {
    let bad = RespFrame::BulkString(BulkString::new(vec![0xff, 0xfe]));
    let err = command(vec![bulk("get"), bad.clone()]).unwrap_err();
    assert!(matches!(err, CommandError::FromUtf8Error(_)));
    let words = err.to_text();
    assert!(words.starts_with("FromUtf8 error: "));
    assert!(words.len() > "FromUtf8 error: ".len());
    let reply = error_reply(&err);
    assert_eq!(reply, RespFrame::Error(SimpleError::new(words)));
    let err = command(vec![bulk("hmget"), bulk("h"), bulk("ok"), bad]).unwrap_err();
    assert!(matches!(err, CommandError::FromUtf8Error(_)));
    let set = RespSet::new(vec![]);
    assert_eq!(set.len(), 0);
}

#[test]
fn the_line_helpers_find_what_they_look_for() {
    assert_eq!(find_crlf(b"+OK\r\n", 1), Some(3));
    assert_eq!(find_crlf(b"\r\n\r\n", 1), Some(2));
    assert_eq!(find_crlf(b"a\r\nb\r\nc\r\n", 2), Some(4));
    assert_eq!(find_crlf(b"a\r\nb\r\nc\r\n", 3), Some(7));
    assert_eq!(find_crlf(b"a\r\nb\r\nc\r\n", 4), None);
    assert_eq!(find_crlf(b"a\r\n", 0), None);
    assert_eq!(find_crlf(b"", 1), None);
    assert_eq!(find_crlf(b"abc\r", 1), None);
    assert_eq!(extract_simple_frame_data(b"+OK\r\nrest", "+"), Ok(3));
    assert_eq!(
        extract_simple_frame_data(b"+O", "+"),
        Err(RespError::NotComplete)
    );
    assert!(matches!(
        extract_simple_frame_data(b"-OK\r\n", "+"),
        Err(RespError::InvalidFrameType(_))
    ));
    assert_eq!(parse_length(b"$12\r\n", "$"), Ok((3, 12)));
    assert_eq!(parse_length(b"*+3\r\nxyz", "*"), Ok((3, 3)));
    assert!(matches!(
        parse_length(b"*\r\n", "*"),
        Err(RespError::ParseIntError(_))
    ));
    assert_eq!(calc_total_length(b"%1\r\n+k\r\n:1\r\n", 2, 1, "%"), Ok(12));
    assert_eq!(calc_total_length(b"~2\r\n:1\r\n#t\r\n+x", 2, 2, "~"), Ok(12));
    assert_eq!(calc_total_length(b"*1\r\n", 9, 1, "*"), Err(RespError::NotComplete));
    assert_eq!(calc_total_length(b"$5\r\n", 2, 5, "$"), Ok(7));
    assert_eq!(
        calc_total_length(b"$5\r\n", 2, usize::MAX, "$"),
        Err(RespError::InvalidFrameLength(isize::MAX))
    );
}

#[test]
fn fixed_bytes_are_taken_only_when_they_are_there() {
    let mut buf = BytesMut::new();
    buf.put_slice(b"#t\r\nrest");
    assert_eq!(extract_fixed_data(&mut buf, "#t\r\n"), Ok(()));
    assert_eq!(&buf[..], b"rest");
    assert!(matches!(
        extract_fixed_data(&mut buf, "#t\r\n"),
        Err(RespError::InvalidFrameType(_))
    ));
    assert_eq!(&buf[..], b"rest");
    assert_eq!(
        extract_fixed_data(&mut buf, "rest and more"),
        Err(RespError::NotComplete)
    );
    assert_eq!(&buf[..], b"rest");
}

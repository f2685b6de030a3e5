use bytes::{BufMut, BytesMut};
use simple_redis::cmd::{CommandExecutor, HGetAll, HSet, SAdd, SMembers, Sismember};
use simple_redis::network::RespFrameCodec;
use simple_redis::respv2::parser::{parse_frame, parse_frame_length};
use simple_redis::{
    Backend, BulkString, RespArray, RespDecode, RespDouble, RespEncode, RespError, RespFrame,
    RespMap, RespNull, RespSet, SimpleError, SimpleString,
};

fn bulk(text: &str) -> RespFrame {
    RespFrame::BulkString(BulkString::new(text.as_bytes().to_vec()))
}

fn simple(text: &str) -> RespFrame {
    RespFrame::SimpleString(SimpleString::new(text.to_string()))
}

fn double(text: &str) -> RespFrame {
    RespFrame::Double(RespDouble::new(text.as_bytes().to_vec()).unwrap())
}

fn sample_frames() -> Vec<RespFrame> {
    let mut map = RespMap::new();
    map.insert("beta".to_string(), bulk("two"));
    map.insert("alpha".to_string(), RespFrame::Integer(1));
    vec![
        simple("OK"),
        simple(""),
        simple("h\u{e9}llo w\u{f6}rld \u{4e16}\u{754c}"),
        simple("ends with a return\r"),
        RespFrame::Error(SimpleError::new("ERR wrong".to_string())),
        RespFrame::Integer(0),
        RespFrame::Integer(123),
        RespFrame::Integer(-1),
        RespFrame::Integer(i64::MIN),
        RespFrame::Integer(i64::MAX),
        bulk("hello"),
        bulk(""),
        bulk("a\r\nb"),
        RespFrame::BulkString(BulkString::null_bulk_string()),
        RespFrame::Array(RespArray::new(vec![])),
        RespFrame::Array(RespArray::new(vec![
            bulk("set"),
            RespFrame::Array(RespArray::new(vec![RespFrame::Integer(7), RespFrame::Null(RespNull)])),
            RespFrame::Boolean(false),
        ])),
        RespFrame::Null(RespNull),
        RespFrame::Boolean(true),
        RespFrame::Boolean(false),
        double("3.14"),
        double("-1e10"),
        double("inf"),
        double("NaN"),
        RespFrame::RespMap(map),
        RespFrame::RespMap(RespMap::new()),
        RespFrame::RespSet(RespSet::new(vec![bulk("one"), simple("one"), double("+.5E-3")])),
        RespFrame::RespSet(RespSet::new(vec![])),
    ]
}

#[test]
fn every_frame_is_read_back_as_it_was_sent() {
    for frame in sample_frames() {
        let encoded = frame.clone().encode();
        let mut buf = BytesMut::new();
        buf.put_slice(&encoded);
        let decoded = RespFrame::decode(&mut buf).unwrap();
        assert_eq!(decoded, frame);
        assert!(buf.is_empty());
        let (parsed, used) = parse_frame(&encoded).unwrap();
        assert_eq!(parsed, frame);
        assert_eq!(used, encoded.len());
    }
}

#[test]
fn every_strict_prefix_is_not_complete() {
    for frame in sample_frames() {
        let encoded = frame.clone().encode();
        for k in 0..encoded.len() {
            let mut buf = BytesMut::new();
            buf.put_slice(&encoded[..k]);
            let err = RespFrame::decode(&mut buf).unwrap_err();
            assert_eq!(err, RespError::NotComplete);
            assert_eq!(&buf[..], &encoded[..k]);
        }
    }
}

#[test]
fn trailing_bytes_are_left_in_the_buffer() {
    for frame in sample_frames() {
        let encoded = frame.clone().encode();
        let mut buf = BytesMut::new();
        buf.put_slice(&encoded);
        buf.put_slice(b"+next\r\n$3");
        assert_eq!(RespFrame::expect_length(&buf[..]), Ok(encoded.len()));
        assert_eq!(parse_frame_length(&buf[..]), Ok(encoded.len()));
        let decoded = RespFrame::decode(&mut buf).unwrap();
        assert_eq!(decoded, frame);
        assert_eq!(&buf[..], b"+next\r\n$3");
    }
}

#[test]
fn the_measure_of_a_bulk_string_does_not_wait_for_its_bytes() {
    assert_eq!(RespFrame::expect_length(b"$5\r\nhel"), Ok(11));
    assert_eq!(BulkString::expect_length(b"$5\r\nhel"), Ok(11));
    assert_eq!(BulkString::expect_length(b"$-1\r\n"), Ok(5));
    assert_eq!(bool::expect_length(b"#"), Ok(4));
    assert_eq!(RespNull::expect_length(b"_"), Ok(3));
    assert_eq!(RespFrame::expect_length(b""), Err(RespError::NotComplete));
    assert_eq!(
        RespFrame::expect_length(b"*2\r\n$5\r\nhel"),
        Err(RespError::NotComplete)
    );
    assert_eq!(RespFrame::expect_length(b"*2\r\n:1\r\n:22\r\nrest"), Ok(13));
    assert_eq!(RespFrame::expect_length(b"%1\r\n+k\r\n:1\r\n"), Ok(12));
    assert_eq!(RespFrame::expect_length(b"~0\r\n"), Ok(4));
    assert_eq!(RespFrame::expect_length(b"*-1\r\n"), Ok(5));
    assert_eq!(i64::expect_length(b":123\r\n"), Ok(6));
    assert_eq!(SimpleString::expect_length(b"+OK\r\nmore"), Ok(5));
}

#[test]
fn the_framer_takes_one_frame_at_a_time() {
    let mut codec = RespFrameCodec;
    let mut buf = BytesMut::new();
    buf.put_slice(b"+one\r\n:2\r\n$5\r\nth");
    assert_eq!(codec.decode(&mut buf), Ok(Some(simple("one"))));
    assert_eq!(&buf[..], b":2\r\n$5\r\nth");
    assert_eq!(codec.decode(&mut buf), Ok(Some(RespFrame::Integer(2))));
    assert_eq!(codec.decode(&mut buf), Ok(None));
    assert_eq!(&buf[..], b"$5\r\nth");
    buf.put_slice(b"ree\r\n");
    assert_eq!(codec.decode(&mut buf), Ok(Some(bulk("three"))));
    assert!(buf.is_empty());
    assert_eq!(codec.decode(&mut buf), Ok(None));
}

#[test]
fn the_framer_puts_frames_behind_what_is_pending() {
    let mut codec = RespFrameCodec;
    let mut buf = BytesMut::new();
    buf.put_slice(b"+pending\r\n");
    assert_eq!(codec.encode(RespFrame::Integer(-5), &mut buf), Ok(()));
    assert_eq!(codec.encode(bulk("x"), &mut buf), Ok(()));
    assert_eq!(&buf[..], b"+pending\r\n:-5\r\n$1\r\nx\r\n");
}

#[test]
fn the_framer_gives_the_error_of_bytes_that_are_wrong() {
    let mut codec = RespFrameCodec;
    let mut buf = BytesMut::new();
    buf.put_slice(b"!oops\r\n");
    let err = codec.decode(&mut buf).unwrap_err();
    assert!(matches!(err, RespError::InvalidFrameType(_)));
    assert_eq!(&buf[..], b"!oops\r\n");
}

#[test]
fn members_are_told_apart_by_their_wire_form() {
    let mut backend = Backend::new();
    let key = "s".to_string();
    let cmd = SAdd {
        key: key.clone(),
        values: vec![bulk("two"), simple("two")],
    };
    assert_eq!(cmd.execute(&mut backend), RespFrame::Integer(2));
    let cmd = SAdd {
        key: key.clone(),
        values: vec![bulk("two"), bulk("two")],
    };
    assert_eq!(cmd.execute(&mut backend), RespFrame::Integer(0));
    let cmd = SAdd {
        key: key.clone(),
        values: vec![RespFrame::Integer(2), double("2"), RespFrame::Integer(2)],
    };
    assert_eq!(cmd.execute(&mut backend), RespFrame::Integer(2));
    let cmd = Sismember {
        key: key.clone(),
        value: simple("two"),
    };
    assert_eq!(cmd.execute(&mut backend), RespFrame::Integer(1));
    let cmd = Sismember {
        key: key.clone(),
        value: RespFrame::Error(SimpleError::new("two".to_string())),
    };
    assert_eq!(cmd.execute(&mut backend), RespFrame::Integer(0));
}

#[test]
fn adding_a_member_again_changes_nothing() {
    let mut backend = Backend::new();
    let key = "s".to_string();
    let first = SAdd {
        key: key.clone(),
        values: vec![bulk("one"), bulk("two"), bulk("three")],
    };
    assert_eq!(first.execute(&mut backend), RespFrame::Integer(3));
    let members = SMembers { key: key.clone() };
    let before = members.execute(&mut backend);
    let again = SAdd {
        key: key.clone(),
        values: vec![bulk("two")],
    };
    assert_eq!(again.execute(&mut backend), RespFrame::Integer(0));
    assert_eq!(members.execute(&mut backend), before);
    assert_eq!(
        before,
        RespFrame::Array(RespArray::new(vec![bulk("one"), bulk("two"), bulk("three")]))
    );
    let other = SMembers {
        key: "other".to_string(),
    };
    assert_eq!(
        other.execute(&mut backend),
        RespFrame::Array(RespArray::new(vec![]))
    );
}

#[test]
fn all_fields_come_in_the_order_of_their_names_each_time() {
    let mut backend = Backend::new();
    for (field, value) in [("zeta", "1"), ("alpha", "2"), ("mid", "3"), ("Zed", "4"), ("alp", "5")] {
        let cmd = HSet {
            key: "h".to_string(),
            field: field.to_string(),
            value: bulk(value),
        };
        cmd.execute(&mut backend);
    }
    let cmd = HGetAll {
        key: "h".to_string(),
    };
    let first = cmd.execute(&mut backend);
    let second = cmd.execute(&mut backend);
    assert_eq!(first, second);
    assert_eq!(
        first,
        RespFrame::Array(RespArray::new(vec![
            bulk("Zed"),
            bulk("4"),
            bulk("alp"),
            bulk("5"),
            bulk("alpha"),
            bulk("2"),
            bulk("mid"),
            bulk("3"),
            bulk("zeta"),
            bulk("1"),
        ]))
    );
    let missing = HGetAll {
        key: "none".to_string(),
    };
    assert_eq!(
        missing.execute(&mut backend),
        RespFrame::Array(RespArray::new(vec![]))
    );
}

#[test]
fn a_map_keeps_its_keys_in_order_and_each_once() {
    let mut map = RespMap::new();
    map.insert("b".to_string(), RespFrame::Integer(1));
    map.insert("a".to_string(), RespFrame::Integer(2));
    map.insert("c".to_string(), RespFrame::Integer(3));
    map.insert("b".to_string(), RespFrame::Integer(4));
    assert_eq!(map.len(), 3);
    assert_eq!(
        RespFrame::RespMap(map.clone()).encode(),
        b"%3\r\n+a\r\n:2\r\n+b\r\n:4\r\n+c\r\n:3\r\n"
    );
    let mut buf = BytesMut::new();
    buf.put_slice(b"%3\r\n+b\r\n:1\r\n+a\r\n:2\r\n+b\r\n:4\r\n");
    let decoded = RespMap::decode(&mut buf).unwrap();
    let mut expected = RespMap::new();
    expected.insert("a".to_string(), RespFrame::Integer(2));
    expected.insert("b".to_string(), RespFrame::Integer(4));
    assert_eq!(decoded, expected);
}

#[test]
fn a_copy_of_a_frame_is_the_same_frame() {
    for frame in sample_frames() {
        assert_eq!(frame.clone(), frame);
        assert_eq!(frame.duplicate().encode(), frame.encode());
    }
}

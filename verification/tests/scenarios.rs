use bytes::{BufMut, BytesMut};
use simple_redis::cmd::{resp_ok, Command, CommandExecutor};
use simple_redis::network::{request_handler, respond, RespFrameCodec};
use simple_redis::{
    Backend, BulkString, RespArray, RespDecode, RespEncode, RespFrame, RespNull, SimpleError,
    SimpleString,
};

fn bulk(text: &str) -> RespFrame {
    RespFrame::BulkString(BulkString::new(text.as_bytes().to_vec()))
}

fn request(words: &[&str]) -> RespFrame {
    let frame = RespFrame::Array(RespArray::new(words.iter().map(|w| bulk(w)).collect()));
    let mut buf = BytesMut::new();
    buf.put_slice(&frame.encode());
    RespFrame::decode(&mut buf).unwrap()
}

fn array(frames: Vec<RespFrame>) -> RespFrame {
    RespFrame::Array(RespArray::new(frames))
}

#[test]
fn set_then_get_gives_the_value() {
    let mut backend = Backend::new();
    assert_eq!(respond(request(&["SET", "foo", "bar"]), &mut backend), resp_ok());
    assert_eq!(respond(request(&["GET", "foo"]), &mut backend), bulk("bar"));
    assert_eq!(respond(request(&["set", "foo", "baz"]), &mut backend), resp_ok());
    assert_eq!(respond(request(&["get", "foo"]), &mut backend), bulk("baz"));
    assert_eq!(backend.get("foo"), Some(bulk("baz")));
    assert_eq!(
        resp_ok(),
        RespFrame::SimpleString(SimpleString::new("OK".to_string()))
    );
}

#[test]
fn get_of_a_missing_key_gives_null() {
    let mut backend = Backend::new();
    assert_eq!(
        respond(request(&["GET", "missing"]), &mut backend),
        RespFrame::Null(RespNull)
    );
    assert_eq!(backend.get("missing"), None);
    assert_eq!(
        respond(request(&["HGET", "missing", "f"]), &mut backend),
        RespFrame::Null(RespNull)
    );
}

#[test]
fn hgetall_gives_the_fields_in_their_order() {
    let mut backend = Backend::new();
    assert_eq!(respond(request(&["HSET", "h", "f2", "v2"]), &mut backend), resp_ok());
    assert_eq!(respond(request(&["HSET", "h", "f1", "v0"]), &mut backend), resp_ok());
    assert_eq!(respond(request(&["HSET", "h", "f1", "v1"]), &mut backend), resp_ok());
    assert_eq!(
        respond(request(&["HGETALL", "h"]), &mut backend),
        array(vec![bulk("f1"), bulk("v1"), bulk("f2"), bulk("v2")])
    );
    assert_eq!(respond(request(&["HGET", "h", "f2"]), &mut backend), bulk("v2"));
    assert_eq!(
        respond(request(&["HGET", "h", "f3"]), &mut backend),
        RespFrame::Null(RespNull)
    );
    assert_eq!(backend.hget("h", "f1".to_string()), Some(bulk("v1")));
    let mut entries = backend.hgetall("h").unwrap();
    entries.sort_by(|a, b| a.0.cmp(&b.0));
    assert_eq!(
        entries,
        vec![("f1".to_string(), bulk("v1")), ("f2".to_string(), bulk("v2"))]
    );
    assert_eq!(backend.hgetall("other"), None);
}

#[test]
fn sadd_counts_the_new_members_and_keeps_their_order() {
    let mut backend = Backend::new();
    assert_eq!(
        respond(request(&["SADD", "s", "one"]), &mut backend),
        RespFrame::Integer(1)
    );
    assert_eq!(
        respond(request(&["SADD", "s", "one"]), &mut backend),
        RespFrame::Integer(0)
    );
    assert_eq!(
        respond(request(&["SADD", "s", "two", "three"]), &mut backend),
        RespFrame::Integer(2)
    );
    assert_eq!(
        respond(request(&["SISMEMBER", "s", "two"]), &mut backend),
        RespFrame::Integer(1)
    );
    assert_eq!(
        respond(request(&["SISMEMBER", "s", "four"]), &mut backend),
        RespFrame::Integer(0)
    );
    assert_eq!(
        respond(request(&["SISMEMBER", "t", "two"]), &mut backend),
        RespFrame::Integer(0)
    );
    assert_eq!(
        respond(request(&["SMEMBERS", "s"]), &mut backend),
        array(vec![bulk("one"), bulk("two"), bulk("three")])
    );
    assert_eq!(
        backend.smembers("s"),
        Some(vec![bulk("one"), bulk("two"), bulk("three")])
    );
    assert_eq!(backend.smembers("t"), None);
    assert_eq!(
        backend.sadd("t".to_string(), vec![bulk("a"), bulk("a"), bulk("b")]),
        Ok(2)
    );
    assert_eq!(backend.smembers("t"), Some(vec![bulk("a"), bulk("b")]));
    assert_eq!(
        backend.smembers("s"),
        Some(vec![bulk("one"), bulk("two"), bulk("three")])
    );
}

#[test]
fn hmget_gives_null_for_a_field_that_is_missing() {
    let mut backend = Backend::new();
    respond(request(&["HSET", "h", "f1", "v1"]), &mut backend);
    assert_eq!(
        respond(request(&["HMGET", "h", "f1", "nofield"]), &mut backend),
        array(vec![bulk("v1"), RespFrame::Null(RespNull)])
    );
    assert_eq!(
        respond(request(&["HMGET", "h", "f1", "f1", "x", "f1"]), &mut backend),
        array(vec![bulk("v1"), bulk("v1"), RespFrame::Null(RespNull), bulk("v1")])
    );
    assert_eq!(
        respond(request(&["HMGET", "none", "a", "b"]), &mut backend),
        array(vec![RespFrame::Null(RespNull), RespFrame::Null(RespNull)])
    );
}

#[test]
fn an_unknown_command_is_acknowledged() {
    let mut backend = Backend::new();
    assert_eq!(respond(request(&["FOO", "bar"]), &mut backend), resp_ok());
    assert_eq!(respond(request(&["FOO"]), &mut backend), resp_ok());
    let absent = array(vec![RespFrame::BulkString(BulkString::null_bulk_string())]);
    assert_eq!(respond(absent, &mut backend), resp_ok());
    assert!(matches!(
        Command::try_from(request(&["FOO", "bar"])),
        Ok(Command::Unrecognized(_))
    ));
    assert_eq!(respond(request(&["GET", "bar"]), &mut backend), RespFrame::Null(RespNull));
}

#[test]
fn echo_gives_its_message_back() {
    let mut backend = Backend::new();
    assert_eq!(respond(request(&["echo", "hello"]), &mut backend), bulk("hello"));
    assert_eq!(
        respond(request(&["EcHo", "h\u{e9}llo"]), &mut backend),
        bulk("h\u{e9}llo")
    );
    let cmd = Command::try_from(request(&["ECHO", "x"])).unwrap();
    assert!(matches!(cmd, Command::Echo(_)));
    assert_eq!(cmd.execute(&mut backend), bulk("x"));
}

#[test]
fn an_error_is_a_reply_and_the_connection_goes_on() {
    let mut backend = Backend::new();
    respond(request(&["SET", "k", "v"]), &mut backend);
    assert_eq!(
        respond(request(&["GET"]), &mut backend),
        RespFrame::Error(SimpleError::new(
            "Invalid argument: get command must have exactly 1 argument".to_string()
        ))
    );
    assert_eq!(
        respond(RespFrame::Integer(1), &mut backend),
        RespFrame::Error(SimpleError::new(
            "Invalid command: Command must be an array".to_string()
        ))
    );
    assert!(request_handler(request(&["GET"]), &mut backend).is_err());
    assert_eq!(
        request_handler(request(&["GET", "k"]), &mut backend).unwrap(),
        bulk("v")
    );
    assert_eq!(respond(request(&["GET", "k"]), &mut backend), bulk("v"));
}

#[test]
fn requests_on_one_connection_are_answered_in_order() {
    let mut codec = RespFrameCodec;
    let mut backend = Backend::default();
    let mut incoming = BytesMut::new();
    incoming.put_slice(b"*3\r\n$3\r\nset\r\n$1\r\nk\r\n$1\r\nv\r\n*2\r\n$3\r\nget\r\n$1\r\nk\r\n*2\r\n$3\r\nge");
    let mut outgoing = BytesMut::new();
    while let Some(frame) = codec.decode(&mut incoming).unwrap() {
        let reply = respond(frame, &mut backend);
        codec.encode(reply, &mut outgoing).unwrap();
    }
    assert_eq!(&outgoing[..], b"+OK\r\n$1\r\nv\r\n");
    assert_eq!(&incoming[..], b"*2\r\n$3\r\nge");
}

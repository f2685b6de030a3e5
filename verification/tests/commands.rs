use bytes::{BufMut, BytesMut};
use simple_redis::cmd::{
    resp_ok, CommandExecutor, Echo, Get, HGet, HGetAll, HMGet, HSet, SAdd, SMembers, SetCmd,
    Sismember,
};
use simple_redis::{Backend, BulkString, RespArray, RespDecode, RespFrame, RespNull, SimpleString};

fn bulk(text: &str) -> RespFrame {
    RespFrame::BulkString(BulkString::new(text.as_bytes().to_vec()))
}

fn simple(text: &str) -> RespFrame {
    RespFrame::SimpleString(SimpleString::new(text.to_string()))
}

#[test]
fn test_echo_from_resp_array() {
    let mut buf = BytesMut::new();
    buf.put_slice(b"*2\r\n$4\r\necho\r\n$5\r\nhello\r\n");
    let frame = RespArray::decode(&mut buf).unwrap();
    let result: Echo = frame.try_into().unwrap();
    assert_eq!(result.message, "hello");

    buf.put_slice(b"*2\r\n$4\r\nECHO\r\n$5\r\nhello\r\n");
    let frame = RespArray::decode(&mut buf).unwrap();
    let result: Echo = frame.try_into().unwrap();
    assert_eq!(result.message, "hello");
}

#[test]
fn test_echo_command() {
    let mut backend = Backend::new();
    let cmd = Echo {
        message: "hello".to_string(),
    };
    let result = cmd.execute(&mut backend);

    let expected_result = bulk("hello");
    assert_eq!(result, expected_result);
}

#[test]
fn test_hget_from_resp_array() {
    let mut buf = BytesMut::new();
    buf.put_slice(b"*3\r\n$4\r\nhget\r\n$3\r\nmap\r\n$5\r\nhello\r\n");
    let frame = RespArray::decode(&mut buf).unwrap();
    let result: HGet = frame.try_into().unwrap();
    assert_eq!(result.key, "map");
    assert_eq!(result.field, "hello");
}

#[test]
fn test_hgetall_from_resp_array() {
    let mut buf = BytesMut::new();
    buf.put_slice(b"*2\r\n$7\r\nhgetall\r\n$3\r\nmap\r\n");
    let frame = RespArray::decode(&mut buf).unwrap();
    let result: HGetAll = frame.try_into().unwrap();
    assert_eq!(result.key, "map");
}

#[test]
fn test_hset_from_resp_array() {
    let mut buf = BytesMut::new();
    buf.put_slice(b"*4\r\n$4\r\nhset\r\n$3\r\nmap\r\n$5\r\nhello\r\n+world\r\n");
    let frame = RespArray::decode(&mut buf).unwrap();
    let result: HSet = frame.try_into().unwrap();
    assert_eq!(result.key, "map");
    assert_eq!(result.field, "hello");
    assert_eq!(result.value, simple("world"));
}

#[test]
fn test_hmget_from_resp_array() {
    let mut buf = BytesMut::new();
    buf.put_slice(
        b"*5\r\n$5\r\nHMGET\r\n$6\r\nmyhash\r\n$6\r\nfield1\r\n$6\r\nfield2\r\n$7\r\nnofield\r\n",
    );
    let frame = RespArray::decode(&mut buf).unwrap();
    let result: HMGet = frame.try_into().unwrap();
    let fields = ["field1", "field2", "nofield"];
    assert_eq!(result.key, "myhash");
    assert_eq!(result.fields, fields);
}

#[test]
fn test_hset_and_hgetall_command() {
    let mut backend = Backend::new();
    let cmd = HSet {
        key: "map".to_string(),
        field: "hello".to_string(),
        value: bulk("world"),
    };
    let result = cmd.execute(&mut backend);
    assert_eq!(result, resp_ok());

    let cmd = HSet {
        key: "map".to_string(),
        field: "foo".to_string(),
        value: bulk("bar"),
    };
    let result = cmd.execute(&mut backend);
    assert_eq!(result, resp_ok());

    let cmd = HGetAll {
        key: "map".to_string(),
    };
    let result = cmd.execute(&mut backend);
    let expected_result = RespFrame::Array(RespArray::new(vec![
        bulk("foo"),
        bulk("bar"),
        bulk("hello"),
        bulk("world"),
    ]));
    assert_eq!(result, expected_result);
}

#[test]
fn test_hmget_command() {
    let mut backend = Backend::new();
    let cmd = HSet {
        key: "myhash".to_string(),
        field: "field1".to_string(),
        value: bulk("value1"),
    };
    let result = cmd.execute(&mut backend);
    assert_eq!(result, resp_ok());

    let cmd = HSet {
        key: "myhash".to_string(),
        field: "field2".to_string(),
        value: bulk("value2"),
    };
    let result = cmd.execute(&mut backend);
    assert_eq!(result, resp_ok());

    let cmd = HMGet {
        key: "myhash".to_string(),
        fields: vec![
            "field1".to_string(),
            "field2".to_string(),
            "nofield".to_string(),
        ],
    };
    let result = cmd.execute(&mut backend);
    let expected_result = RespFrame::Array(RespArray::new(vec![
        bulk("value1"),
        bulk("value2"),
        RespFrame::Null(RespNull),
    ]));
    assert_eq!(result, expected_result);
}

#[test]
fn test_get_from_resp_array() {
    let input = RespArray::new(vec![bulk("get"), bulk("key")]);
    let result: Get = input.try_into().unwrap();
    assert_eq!(result.key, "key");

    let mut buf = BytesMut::new();
    buf.put_slice(b"*2\r\n$3\r\nget\r\n$5\r\nhello\r\n");
    let frame = RespArray::decode(&mut buf).unwrap();
    let result: Get = frame.try_into().unwrap();
    assert_eq!(result.key, "hello");
}

#[test]
fn test_set_from_resp_array() {
    let mut buf = BytesMut::new();
    buf.put_slice(b"*3\r\n$3\r\nset\r\n$5\r\nhello\r\n$5\r\nworld\r\n");
    let frame = RespArray::decode(&mut buf).unwrap();
    let result: SetCmd = frame.try_into().unwrap();
    assert_eq!(result.key, "hello");
    assert_eq!(result.value, bulk("world"));
}

#[test]
fn test_set_get_command() {
    let value = bulk("world");
    let mut backend = Backend::new();
    let cmd = SetCmd {
        key: "hello".to_string(),
        value: value.clone(),
    };
    let result = cmd.execute(&mut backend);
    assert_eq!(result, resp_ok());

    let cmd = Get {
        key: "hello".to_string(),
    };
    let result = cmd.execute(&mut backend);
    assert_eq!(result, value);
}

#[test]
fn test_sadd_from_resp_array() {
    let input = RespArray::new(vec![bulk("sadd"), bulk("myset"), bulk("one")]);
    let result: SAdd = input.try_into().unwrap();
    assert_eq!(result.key, "myset");
    assert_eq!(result.values, [bulk("one")]);

    let mut buf = BytesMut::new();
    buf.put_slice(b"*4\r\n$4\r\nSADD\r\n$5\r\nmyset\r\n$3\r\none\r\n$3\r\ntwo\r\n");
    let frame = RespArray::decode(&mut buf).unwrap();
    let result: SAdd = frame.try_into().unwrap();
    assert_eq!(result.key, "myset");
    assert_eq!(result.values, [bulk("one"), bulk("two")]);
}

#[test]
fn test_sismember_from_resp_array() {
    let input = RespArray::new(vec![bulk("sismember"), bulk("myset"), bulk("one")]);
    let result: Sismember = input.try_into().unwrap();
    assert_eq!(result.key, "myset");
    assert_eq!(result.value, bulk("one"));

    let mut buf = BytesMut::new();
    buf.put_slice(b"*3\r\n$9\r\nsismember\r\n$5\r\nmyset\r\n$3\r\none\r\n");
    let frame = RespArray::decode(&mut buf).unwrap();
    let result: Sismember = frame.try_into().unwrap();
    assert_eq!(result.key, "myset");
    assert_eq!(result.value, bulk("one"));
}

#[test]
fn test_smembers_from_array() {
    let input = RespArray::new(vec![bulk("smembers"), bulk("myset")]);
    let result: SMembers = input.try_into().unwrap();
    assert_eq!(result.key, "myset");

    let mut buf = BytesMut::new();
    buf.put_slice(b"*2\r\n$8\r\nsmembers\r\n$5\r\nmyset\r\n");
    let frame = RespArray::decode(&mut buf).unwrap();
    let result: SMembers = frame.try_into().unwrap();
    assert_eq!(result.key, "myset");
}

#[test]
fn test_sadd_and_sismember_and_smembers_command() {
    let key = "myset".to_string();
    let mut backend = Backend::new();
    let cmd = SAdd {
        key: key.clone(),
        values: vec![bulk("one")],
    };
    let ret = cmd.execute(&mut backend);
    assert_eq!(ret, RespFrame::Integer(1));

    let cmd = SAdd {
        key: key.clone(),
        values: vec![bulk("one")],
    };
    let ret = cmd.execute(&mut backend);
    assert_eq!(ret, RespFrame::Integer(0));

    let cmd = SAdd {
        key: key.clone(),
        values: vec![bulk("two"), bulk("three")],
    };
    let ret = cmd.execute(&mut backend);
    assert_eq!(ret, RespFrame::Integer(2));

    let cmd = SAdd {
        key: key.clone(),
        values: vec![bulk("two"), simple("two")],
    };
    let ret = cmd.execute(&mut backend);
    assert_eq!(ret, RespFrame::Integer(1));

    let cmd = Sismember {
        key: key.clone(),
        value: bulk("one"),
    };
    let ret = cmd.execute(&mut backend);
    assert_eq!(ret, RespFrame::Integer(1));

    let cmd = Sismember {
        key: key.clone(),
        value: bulk("three"),
    };
    let ret = cmd.execute(&mut backend);
    assert_eq!(ret, RespFrame::Integer(1));

    let cmd = Sismember {
        key: key.clone(),
        value: bulk("two"),
    };
    let ret = cmd.execute(&mut backend);
    assert_eq!(ret, RespFrame::Integer(1));

    let cmd = Sismember {
        key: key.clone(),
        value: bulk("not_in_set"),
    };
    let ret = cmd.execute(&mut backend);
    assert_eq!(ret, RespFrame::Integer(0));

    let cmd = SMembers { key };
    let ret = cmd.execute(&mut backend);
    assert_eq!(
        ret,
        RespFrame::Array(RespArray::new(vec![
            bulk("one"),
            bulk("two"),
            bulk("three"),
            simple("two"),
        ]))
    );
}

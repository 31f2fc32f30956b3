use resp_codec::command::Command;
use resp_codec::redis_value::RedisValue;

fn bulk(t: &str) -> RedisValue {
    RedisValue::BulkString(t.to_string())
}

#[test]
fn ping_is_recognized() {
    let v = RedisValue::Array(vec![bulk("ping")]);
    assert_eq!(Command::from_value(v), Some(Command::PING));
}

#[test]
fn command_name_is_case_insensitive() {
    // fails if the case folding handed the name back unchanged
    let v = RedisValue::Array(vec![bulk("PING")]);
    assert_eq!(Command::from_value(v), Some(Command::PING));
    let v = RedisValue::Array(vec![bulk("SeT"), bulk("k"), bulk("v")]);
    assert_eq!(
        Command::from_value(v),
        Some(Command::SET { key: bulk("k"), value: bulk("v") })
    );
}

#[test]
fn set_takes_key_and_value() {
    let v = RedisValue::Array(vec![bulk("set"), bulk("k"), bulk("v")]);
    assert_eq!(
        Command::from_value(v),
        Some(Command::SET { key: bulk("k"), value: bulk("v") })
    );
}

#[test]
fn set_without_value_is_rejected() {
    let v = RedisValue::Array(vec![bulk("set"), bulk("k")]);
    assert_eq!(Command::from_value(v), None);
}

#[test]
fn get_takes_key() {
    let v = RedisValue::Array(vec![bulk("get"), bulk("k")]);
    assert_eq!(Command::from_value(v), Some(Command::GET { key: bulk("k") }));
}

#[test]
fn del_takes_key() {
    let v = RedisValue::Array(vec![bulk("del"), bulk("k")]);
    assert_eq!(Command::from_value(v), Some(Command::DEL { key: bulk("k") }));
}

#[test]
fn get_without_key_is_rejected() {
    let v = RedisValue::Array(vec![bulk("get")]);
    assert_eq!(Command::from_value(v), None);
}

#[test]
fn unknown_command_is_rejected() {
    let v = RedisValue::Array(vec![bulk("nope"), bulk("k")]);
    assert_eq!(Command::from_value(v), None);
}

#[test]
fn non_array_is_rejected() {
    assert_eq!(Command::from_value(bulk("ping")), None);
    assert_eq!(Command::from_value(RedisValue::Integer(1)), None);
}

#[test]
fn empty_array_is_rejected() {
    assert_eq!(Command::from_value(RedisValue::Array(vec![])), None);
}

#[test]
fn non_bulk_command_name_is_rejected() {
    let v = RedisValue::Array(vec![RedisValue::SimpleString("ping".to_string())]);
    assert_eq!(Command::from_value(v), None);
}

#[test]
fn decoded_wire_command_is_recognized() {
    let v = RedisValue::from_resp("*3\r\n$3\r\nSET\r\n$1\r\nk\r\n$1\r\nv\r\n".to_string());
    assert_eq!(
        Command::from_value(v),
        Some(Command::SET { key: bulk("k"), value: bulk("v") })
    );
}

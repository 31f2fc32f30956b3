use resp_codec::redis_value::RedisValue;

fn s(t: &str) -> String {
    t.to_string()
}

#[test]
fn encode_array_scenario() {
    let value = RedisValue::Array(vec![
        RedisValue::Boolean(true),
        RedisValue::BulkString(s("Hello, world")),
        RedisValue::Integer(42069),
    ]);
    let resp = value.to_resp();
    assert_eq!(resp, "*3\r\n#t\r\n$12\r\nHello, world\r\n:42069\r\n");
    let back = RedisValue::from_resp(resp);
    assert_eq!(back, value);
}

#[test]
fn decode_null_bulk_string() {
    assert_eq!(RedisValue::from_resp(s("$-1\r\n")), RedisValue::NullBulkString);
}

#[test]
fn decode_duplicate_set_is_error() {
    assert_eq!(
        RedisValue::from_resp(s("~2\r\n:1\r\n:1\r\n")),
        RedisValue::SimpleError(s("Set is not unique"))
    );
}

#[test]
fn decode_truncated_array_is_error() {
    let v = RedisValue::from_resp(s("*2\r\n:1\r\n"));
    assert!(matches!(v, RedisValue::SimpleError(_)));
}

#[test]
fn decode_verbatim_string() {
    assert_eq!(
        RedisValue::from_resp(s("=9\r\ntxt:hello\r\n")),
        RedisValue::VerbatimString(s("txt"), s("hello"))
    );
}

#[test]
fn simple_string_round_trip() {
    let v = RedisValue::SimpleString(s("OK"));
    assert_eq!(v.to_resp(), "+OK\r\n");
    assert_eq!(RedisValue::from_resp(v.to_resp()), v);
}

#[test]
fn simple_error_round_trip() {
    let v = RedisValue::SimpleError(s("ERR nope"));
    assert_eq!(v.to_resp(), "-ERR nope\r\n");
    assert_eq!(RedisValue::from_resp(v.to_resp()), v);
}

#[test]
fn integer_round_trip_extremes() {
    for n in [0i64, 1, -1, 42069, i64::MAX, i64::MIN] {
        let v = RedisValue::Integer(n);
        assert_eq!(RedisValue::from_resp(v.to_resp()), v);
    }
    assert_eq!(RedisValue::Integer(i64::MIN).to_resp(), ":-9223372036854775808\r\n");
}

#[test]
fn big_integer_round_trip_extremes() {
    for n in [0i128, -7, i128::MAX, i128::MIN] {
        let v = RedisValue::BigInteger(n);
        assert_eq!(RedisValue::from_resp(v.to_resp()), v);
    }
    assert_eq!(
        RedisValue::from_resp(s("(170141183460469231731687303715884105727\r\n")),
        RedisValue::BigInteger(i128::MAX)
    );
    assert_eq!(
        RedisValue::from_resp(s("(-170141183460469231731687303715884105728\r\n")),
        RedisValue::BigInteger(i128::MIN)
    );
}

#[test]
fn integer_with_plus_sign_parses() {
    assert_eq!(RedisValue::from_resp(s(":+42\r\n")), RedisValue::Integer(42));
}

#[test]
fn integer_garbage_is_error() {
    assert_eq!(
        RedisValue::from_resp(s(":42x\r\n")),
        RedisValue::SimpleError(s("Could not parse as Integer"))
    );
    assert_eq!(
        RedisValue::from_resp(s(":\r\n")),
        RedisValue::SimpleError(s("Could not parse as Integer"))
    );
}

#[test]
fn integer_overflow_is_error() {
    assert_eq!(
        RedisValue::from_resp(s(":99999999999999999999\r\n")),
        RedisValue::SimpleError(s("Could not parse as Integer"))
    );
}

#[test]
fn bulk_string_length_fidelity() {
    // the body may hold terminator-like text: exactly 4 characters are read
    let v = RedisValue::BulkString(s("a\r\nb"));
    assert_eq!(v.to_resp(), "$4\r\na\r\nb\r\n");
    assert_eq!(RedisValue::from_resp(v.to_resp()), v);
}

#[test]
fn bulk_string_empty_vs_null() {
    let empty = RedisValue::BulkString(s(""));
    assert_eq!(empty.to_resp(), "$0\r\n\r\n");
    assert_eq!(RedisValue::NullBulkString.to_resp(), "$-1\r\n");
    assert_ne!(empty, RedisValue::NullBulkString);
    assert_ne!(empty.to_resp(), RedisValue::NullBulkString.to_resp());
    assert_eq!(RedisValue::from_resp(empty.to_resp()), empty);
}

#[test]
fn array_empty_vs_null() {
    let empty = RedisValue::Array(vec![]);
    assert_eq!(empty.to_resp(), "*0\r\n");
    assert_eq!(RedisValue::NullArray.to_resp(), "*-1\r\n");
    assert_ne!(empty, RedisValue::NullArray);
    assert_ne!(empty.to_resp(), RedisValue::NullArray.to_resp());
    assert_eq!(RedisValue::from_resp(s("*-1\r\n")), RedisValue::NullArray);
    assert_eq!(RedisValue::from_resp(empty.to_resp()), empty);
}

#[test]
fn nested_array_round_trip() {
    let v = RedisValue::Array(vec![
        RedisValue::Array(vec![RedisValue::Integer(1), RedisValue::Null]),
        RedisValue::BulkError(s("oops")),
        RedisValue::NullArray,
    ]);
    assert_eq!(RedisValue::from_resp(v.to_resp()), v);
}

#[test]
fn null_round_trip() {
    assert_eq!(RedisValue::Null.to_resp(), "_\r\n");
    assert_eq!(RedisValue::from_resp(s("_\r\n")), RedisValue::Null);
}

#[test]
fn boolean_round_trip() {
    assert_eq!(RedisValue::Boolean(true).to_resp(), "#t\r\n");
    assert_eq!(RedisValue::Boolean(false).to_resp(), "#f\r\n");
    assert_eq!(RedisValue::from_resp(s("#t\r\n")), RedisValue::Boolean(true));
    assert_eq!(RedisValue::from_resp(s("#f\r\n")), RedisValue::Boolean(false));
}

#[test]
fn boolean_garbage_is_error() {
    assert_eq!(
        RedisValue::from_resp(s("#x\r\n")),
        RedisValue::SimpleError(s("No valid boolean found"))
    );
}

#[test]
fn bulk_error_round_trip() {
    let v = RedisValue::BulkError(s("abc"));
    assert_eq!(v.to_resp(), "!3\r\nabc\r\n");
    assert_eq!(RedisValue::from_resp(s("!3\r\nabc\r\n")), v);
    assert_eq!(RedisValue::from_resp(s("!-1\r\n")), RedisValue::NullBulkString);
}

#[test]
fn verbatim_round_trip_with_embedded_terminator() {
    let v = RedisValue::VerbatimString(s("txt"), s("hel\r\no"));
    assert_eq!(v.to_resp(), "=10\r\ntxt:hel\r\no\r\n");
    assert_eq!(RedisValue::from_resp(v.to_resp()), v);
}

#[test]
fn verbatim_without_colon_is_error() {
    assert_eq!(
        RedisValue::from_resp(s("=5\r\nabcde\r\n")),
        RedisValue::SimpleError(s("Invalid verbatim string"))
    );
}

#[test]
fn verbatim_with_two_colons_is_error() {
    assert_eq!(
        RedisValue::from_resp(s("=7\r\na:b:cde\r\n")),
        RedisValue::SimpleError(s("Invalid verbatim string"))
    );
}

#[test]
fn verbatim_null_sentinel() {
    assert_eq!(RedisValue::from_resp(s("=-1\r\n")), RedisValue::NullBulkString);
}

#[test]
fn set_round_trip() {
    let v = RedisValue::SetValue(vec![RedisValue::Integer(1), RedisValue::Integer(2)]);
    assert_eq!(v.to_resp(), "~2\r\n:1\r\n:2\r\n");
    assert_eq!(RedisValue::from_resp(v.to_resp()), v);
    assert_eq!(RedisValue::from_resp(s("~-1\r\n")), RedisValue::NullArray);
}

#[test]
fn set_encode_duplicate_is_error_text() {
    let v = RedisValue::SetValue(vec![RedisValue::Integer(1), RedisValue::Integer(1)]);
    assert_eq!(v.to_resp(), "-ERR Set is not unique\r\n");
}

#[test]
fn set_decode_nested_duplicate_is_error() {
    let text = s("~2\r\n*1\r\n:1\r\n*1\r\n:1\r\n");
    assert_eq!(
        RedisValue::from_resp(text),
        RedisValue::SimpleError(s("Set is not unique"))
    );
}

#[test]
fn push_round_trip() {
    let v = RedisValue::Push(vec![RedisValue::SimpleString(s("msg")), RedisValue::Integer(7)]);
    assert_eq!(v.to_resp(), ">2\r\n+msg\r\n:7\r\n");
    assert_eq!(RedisValue::from_resp(v.to_resp()), v);
    assert_eq!(RedisValue::from_resp(s(">-1\r\n")), RedisValue::NullArray);
}

#[test]
fn mapping_encodes_pairs_in_order() {
    let v = RedisValue::Mapping(vec![
        (RedisValue::SimpleString(s("k")), RedisValue::Integer(1)),
        (RedisValue::SimpleString(s("l")), RedisValue::Integer(2)),
    ]);
    assert_eq!(v.to_resp(), "&2\r\n+k\r\n:1\r\n+l\r\n:2\r\n");
}

#[test]
fn mapping_has_no_decode_rule() {
    // the tag dispatch recognizes no `&`: a Mapping's wire text decodes to
    // the unrecognized-tag error
    assert_eq!(
        RedisValue::from_resp(s("&0\r\n")),
        RedisValue::SimpleError(s("Invalid or empty character for value initializer"))
    );
}

#[test]
fn truncation_yields_error_values() {
    assert_eq!(
        RedisValue::from_resp(s("+abc")),
        RedisValue::SimpleError(s("Expected CRLF"))
    );
    assert_eq!(
        RedisValue::from_resp(s("$5\r\nab")),
        RedisValue::SimpleError(s("Unexpected end of input"))
    );
    assert_eq!(
        RedisValue::from_resp(s("$3\r\nab\r\n")),
        RedisValue::SimpleError(s("Expected CRLF"))
    );
    assert_eq!(
        RedisValue::from_resp(s("_x\r\n")),
        RedisValue::SimpleError(s("Expected CRLF"))
    );
    assert_eq!(
        RedisValue::from_resp(s("#tx")),
        RedisValue::SimpleError(s("Expected CRLF"))
    );
}

#[test]
fn bad_lengths_yield_their_errors() {
    assert_eq!(
        RedisValue::from_resp(s("$x\r\n")),
        RedisValue::SimpleError(s("Could not parse as Integer"))
    );
    assert_eq!(
        RedisValue::from_resp(s("*x\r\n")),
        RedisValue::SimpleError(s("Could not parse as Integer"))
    );
    assert_eq!(
        RedisValue::from_resp(s("~x\r\n")),
        RedisValue::SimpleError(s("Invalid length for set"))
    );
    assert_eq!(
        RedisValue::from_resp(s(">x\r\n")),
        RedisValue::SimpleError(s("Invalid length for push"))
    );
}

#[test]
fn unknown_tag_and_empty_input_are_errors() {
    assert_eq!(
        RedisValue::from_resp(s("?abc\r\n")),
        RedisValue::SimpleError(s("Invalid or empty character for value initializer"))
    );
    assert_eq!(
        RedisValue::from_resp(s("")),
        RedisValue::SimpleError(s("Invalid or empty character for value initializer"))
    );
}

use codecrafters_redis::resp_value::Value;

fn serialized(value: Value) -> Vec<u8> {
    let mut buf = Vec::new();
    value.serialize(&mut buf);
    buf
}

#[test]
fn test_serialize_str() {
    {   // empty str
        let value = Value::Str("".into());
        assert_eq!(serialized(value).as_slice(), b"+\r\n");
    }
    {   // non-empty str
        let value = Value::Str("hello".into());
        assert_eq!(serialized(value).as_slice(), b"+hello\r\n");
    }
}

#[test]
fn test_serialize_err() {
    {   // empty str
        let value = Value::Error("".into());
        assert_eq!(serialized(value).as_slice(), b"-\r\n");
    }
    {   // non-empty str
        let value = Value::Error("error".into());
        assert_eq!(serialized(value).as_slice(), b"-error\r\n");
    }
}

#[test]
fn test_serialize_int() {
    {   // just int
        let value = Value::Int(123);
        assert_eq!(serialized(value).as_slice(), b":123\r\n");
    }
}

#[test]
fn test_serialize_bulk_str() {
    {   // null str
        let value = Value::BulkStr(None);
        assert_eq!(serialized(value).as_slice(), b"$-1\r\n");
    }
    {   // empty str
        let value = Value::BulkStr(Some("".into()));
        assert_eq!(serialized(value).as_slice(), b"$0\r\n\r\n");
    }
    {   // non-empty str
        let value = Value::BulkStr(Some("correct\r\ncase\n\r".into()));
        assert_eq!(serialized(value).as_slice(), b"$15\r\ncorrect\r\ncase\n\r\r\n");
    }
}

#[test]
fn test_serialize_arr() {
    {   // null arr
        let value = Value::Arr(None);
        assert_eq!(serialized(value).as_slice(), b"*-1\r\n");
    }
    {   // empty arr
        let value = Value::Arr(Some(vec![]));
        assert_eq!(serialized(value).as_slice(), b"*0\r\n");
    }
    {   // non-empty case 1 [BulkStr, Str, Int]
        let value = Value::Arr(Some(vec![
            Value::BulkStr(Some("some".into())),
            Value::Str("number".into()),
            Value::Int(321),
        ]));
        assert_eq!(serialized(value).as_slice(), b"*3\r\n$4\r\nsome\r\n+number\r\n:321\r\n");
    }
    {   // non-empty case 2 [[Int, Int, Int], [Str, Str], [Err]]
        let value = Value::Arr(Some(vec![
            Value::Arr(Some(vec![Value::Int(1), Value::Int(2), Value::Int(3)])),
            Value::Arr(Some(vec![Value::Str("Hello".into()), Value::Str("World".into())])),
            Value::Arr(Some(vec![Value::Error("some error".into())])),
        ]));
        assert_eq!(serialized(value).as_slice(), b"*3\r\n*3\r\n:1\r\n:2\r\n:3\r\n*2\r\n+Hello\r\n+World\r\n*1\r\n-some error\r\n");
    }
}

#[test]
fn serialize_int_extremes() {
    assert_eq!(serialized(Value::Int(0)).as_slice(), b":0\r\n");
    assert_eq!(serialized(Value::Int(-42)).as_slice(), b":-42\r\n");
    assert_eq!(serialized(Value::Int(i64::MIN)).as_slice(), b":-9223372036854775808\r\n");
    assert_eq!(serialized(Value::Int(i64::MAX)).as_slice(), b":9223372036854775807\r\n");
}

#[test]
fn serialize_appends_to_buffer() {
    let mut buf = b"xy".to_vec();
    Value::Str("é".into()).serialize(&mut buf);
    assert_eq!(buf.as_slice(), "xy+é\r\n".as_bytes());
}

#[test]
fn default_value_is_null_bulk_string() {
    assert_eq!(Value::default(), Value::BulkStr(None));
}

#[test]
fn clone_keeps_nested_value() {
    let value = Value::Arr(Some(vec![
        Value::BulkStr(Some(vec![0, 255])),
        Value::Arr(Some(vec![Value::Error("e".into()), Value::Arr(None)])),
    ]));
    assert_eq!(value.clone(), value);
}

#[test]
fn debug_text_of_each_kind() {
    assert_eq!(Value::Int(1).debug_text(), "Int(1)");
    assert_eq!(Value::Str("a\"b\n".into()).debug_text(), "Str(\"a\\\"b\\n\")");
    assert_eq!(Value::Error("bad".into()).debug_text(), "Err(\"bad\")");
    assert_eq!(Value::BulkStr(None).debug_text(), "BulkStr(None)");
    assert_eq!(Value::BulkStr(Some(vec![1, 22, 255])).debug_text(), "BulkStr(Some([1, 22, 255]))");
    assert_eq!(Value::BulkStr(Some(vec![])).debug_text(), "BulkStr(Some([]))");
    assert_eq!(Value::Arr(None).debug_text(), "Arr(None)");
    assert_eq!(
        Value::Arr(Some(vec![Value::Int(-3), Value::Arr(Some(vec![]))])).debug_text(),
        "Arr(Some([Int(-3), Arr(Some([]))]))"
    );
}

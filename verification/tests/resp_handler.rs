use std::collections::HashMap;

use codecrafters_redis::resp_handler::{handle_request, handle_request_at, request_out_of_range};
use codecrafters_redis::resp_parser::RespError;
use codecrafters_redis::resp_value::Value;
use codecrafters_redis::{Storage, StorageEntry};

fn contents(storage: &Storage) -> HashMap<Vec<u8>, StorageEntry> {
    storage.entries().iter().cloned().collect()
}

#[test]
fn test_req_is_not_array() {
    let request = Value::BulkStr(Some("hey there".into()));
    let response = handle_request(request, &mut Storage::default());
    assert_eq!(response, Ok(Value::Error("request should be a non-null RESP array of bulk strings".into())));
}

#[test]
fn test_req_is_null_array() {
    let request = Value::Arr(None);
    let response = handle_request(request, &mut Storage::default());
    assert_eq!(response, Ok(Value::Error("request should be a non-null RESP array of bulk strings".into())));
}

#[test]
fn test_req_is_empty_array() {
    let request = Value::Arr(Some(vec![]));
    let response = handle_request(request, &mut Storage::default());
    assert_eq!(response, Ok(Value::Error("request should be non-empty array".into())));
}

#[test]
fn test_cmd_non_utf8() {
    let invalid_cmd = b"hello\xffworld".to_vec();
    let expected_err = String::from_utf8(invalid_cmd.clone()).unwrap_err();

    let request = Value::Arr(Some(vec![
        Value::BulkStr(Some(invalid_cmd))
    ]));
    let response = handle_request(request, &mut Storage::default());
    assert_eq!(response, Err(RespError::FromUtf8(expected_err)));
}

#[test]
fn test_ping() {
    let request = Value::Arr(Some(vec![
        Value::BulkStr(Some("PiNg".into()))
    ]));
    let response = handle_request(request, &mut Storage::default());
    assert_eq!(response, Ok(Value::Str("PONG".into())));
}

#[test]
fn test_echo() {
    {   // echo with no argument
        let request = Value::Arr(Some(vec![
            Value::BulkStr(Some("eChO".into()))
        ]));
        let response = handle_request(request, &mut Storage::default());
        assert_eq!(response, Ok(Value::Error("ECHO with no argument received".into())));
    }
    {   // echo with wrong argument
        let request = Value::Arr(Some(vec![
            Value::BulkStr(Some("eChO".into())),
            Value::Str("hello".into())
        ]));
        let response = handle_request(request, &mut Storage::default());
        assert_eq!(response, Ok(Value::Error("ECHO's argument should be a bulk string".into())));
    }
    {   // echo with correct argument
        let request = Value::Arr(Some(vec![
            Value::BulkStr(Some("eChO".into())),
            Value::BulkStr(Some("hello".into()))
        ]));
        let response = handle_request(request, &mut Storage::default());
        assert_eq!(response, Ok(Value::BulkStr(Some("hello".into()))));
    }
}

#[test]
fn test_set() {
    let mut storage = Storage::default();
    {   // 0 arguments provided
        let request = Value::Arr(Some(vec![
            Value::BulkStr(Some("Set".into())),
        ]));
        let response = handle_request(request, &mut storage);
        assert_eq!(response, Ok(Value::Error("SET expects at least 2 arguments".into())));
    }
    {   // wrong type of key provided
        let request = Value::Arr(Some(vec![
            Value::BulkStr(Some("Set".into())),
            Value::BulkStr(None),
            Value::Str("val".into()),
        ]));
        let response = handle_request(request, &mut storage);
        assert_eq!(response, Ok(Value::Error("SET key is expected to be non-null bulk string".into())));
    }
    {   // correct case
        let request = Value::Arr(Some(vec![
            Value::BulkStr(Some("Set".into())),
            Value::BulkStr(Some("key1".into())),
            Value::Str("val1".into()),
        ]));
        let response = handle_request(request, &mut storage);
        assert_eq!(response, Ok(Value::Str("OK".into())));
        assert_eq!(
            contents(&storage),
            HashMap::from([
                (b"key1".to_vec(), Value::Str("val1".into()).into())
            ])
        );
    }
    {   // with exp: set at 1000 ms, read 50 ms and 101 ms later (times in nanoseconds)
        let set_request = Value::Arr(Some(vec![
            Value::BulkStr(Some("set".into())),
            Value::BulkStr(Some("foo".into())),
            Value::Str("bar".into()),
            Value::BulkStr(Some("px".into())),
            Value::BulkStr(Some("100".into())),
        ]));
        let response = handle_request_at(set_request, &mut storage, 1_000_000_000);
        assert_eq!(response, Ok(Value::Str("OK".into())));

        let get_request = Value::Arr(Some(vec![
            Value::BulkStr(Some("get".into())),
            Value::BulkStr(Some("foo".into())),
        ]));
        let response = handle_request_at(get_request.clone(), &mut storage, 1_050_000_000);
        assert_eq!(response, Ok(Value::Str("bar".into())));

        let response = handle_request_at(get_request, &mut storage, 1_101_000_000);
        assert_eq!(response, Ok(Value::BulkStr(None)));
    }
}

#[test]
fn test_rpush() {
    let mut storage = Storage::default();
    {   // 0 arguments provided
        let request = Value::Arr(Some(vec![
            Value::BulkStr(Some("rpush".into())),
        ]));
        let response = handle_request(request, &mut storage);
        assert_eq!(response, Ok(Value::Error("USAGE: RPUSH <key> <vals...>".into())));
    }
    {   // wrongtype
        let request1 = Value::Arr(Some(vec![
            Value::BulkStr(Some("Set".into())),
            Value::BulkStr(Some("key".into())),
            Value::Int(1),
        ]));
        let response1 = handle_request(request1, &mut storage);
        assert_eq!(response1, Ok(Value::Str("OK".into())));

        let request2 = Value::Arr(Some(vec![
            Value::BulkStr(Some("Rpush".into())),
            Value::BulkStr(Some("key".into())),
            Value::Int(1),
        ]));
        let response2 = handle_request(request2, &mut storage);
        assert_eq!(response2, Ok(Value::Error("WRONGTYPE for list: Int(1)".into())));
    }
    {   // correct case
        let request1 = Value::Arr(Some(vec![
            Value::BulkStr(Some("rpush".into())),
            Value::BulkStr(Some("lst".into())),
            Value::Int(1),
        ]));
        let response1 = handle_request(request1, &mut storage);
        assert_eq!(response1, Ok(Value::Int(1)));

        let request2 = Value::Arr(Some(vec![
            Value::BulkStr(Some("Rpush".into())),
            Value::BulkStr(Some("lst".into())),
            Value::Str("two".into()),
        ]));
        let response2 = handle_request(request2, &mut storage);
        assert_eq!(response2, Ok(Value::Int(2)));

        let request3 = Value::Arr(Some(vec![
            Value::BulkStr(Some("Get".into())),
            Value::BulkStr(Some("lst".into())),
        ]));
        let response3 = handle_request(request3, &mut storage);
        assert_eq!(
            response3,
            Ok(Value::Arr(Some(vec![Value::Int(1), Value::Str("two".into())])))
        );
    }
    {   // correct case : multiple vals
        let request1 = Value::Arr(Some(vec![
            Value::BulkStr(Some("rpush".into())),
            Value::BulkStr(Some("key10".into())),
            Value::Int(1), Value::Str("2".into()), Value::Int(3)
        ]));
        let response1 = handle_request(request1, &mut storage);
        assert_eq!(response1, Ok(Value::Int(3)));

        let request2 = Value::Arr(Some(vec![
            Value::BulkStr(Some("rpush".into())),
            Value::BulkStr(Some("key10".into())),
            Value::Int(4), Value::Int(5)
        ]));
        let response2 = handle_request(request2, &mut storage);
        assert_eq!(response2, Ok(Value::Int(5)));

        let request3 = Value::Arr(Some(vec![
            Value::BulkStr(Some("Get".into())),
            Value::BulkStr(Some("key10".into())),
        ]));
        let response3 = handle_request(request3, &mut storage);
        assert_eq!(
            response3,
            Ok(Value::Arr(Some(vec![
                Value::Int(1), Value::Str("2".into()), Value::Int(3), Value::Int(4), Value::Int(5)
            ])))
        );
    }
}

#[test]
fn test_lrange() {
    let mut storage = Storage::default();
    storage.insert(
        b"key1".into(),
        Value::Arr(Some(vec![
            Value::Int(1), Value::Str("2".into()), Value::Int(3), Value::Int(4), Value::Int(5)
        ])).into()
    );
    {
        let request = Value::Arr(Some(vec![
            Value::BulkStr(Some("lrange".into())),
            Value::BulkStr(Some("key1".into())),
            Value::BulkStr(Some("1".into())),
            Value::BulkStr(Some("3".into())),
        ]));
        let response = handle_request(request, &mut storage);
        assert_eq!(
            response,
            Ok(Value::Arr(Some(vec![
                Value::Str("2".into()), Value::Int(3), Value::Int(4)
            ])))
        );
    }
}

#[test]
fn test_get() {
    let mut storage = Storage::default();
    storage.insert(
      b"key1".into(),
      Value::Int(100).into()
    );
    {   // 0 arguments provided
        let request = Value::Arr(Some(vec![
            Value::BulkStr(Some("get".into())),
        ]));
        let response = handle_request(request, &mut storage);
        assert_eq!(response, Ok(Value::Error("GET expects 1 argument, provided: 0".into())));
    }
    {   // wrong type of key provided
        let request = Value::Arr(Some(vec![
            Value::BulkStr(Some("gEt".into())),
            Value::Int(1),
        ]));
        let response = handle_request(request, &mut storage);
        assert_eq!(response, Ok(Value::Error("GET key is expected to be non-null bulk string".into())));
    }
    {   // non-existent key requested
        let request = Value::Arr(Some(vec![
            Value::BulkStr(Some("gEt".into())),
            Value::BulkStr(Some("key2".into())),
        ]));
        let response = handle_request(request, &mut storage);
        assert_eq!(response, Ok(Value::BulkStr(None)));
    }
    {   // correct case
        let request = Value::Arr(Some(vec![
            Value::BulkStr(Some("gEt".into())),
            Value::BulkStr(Some("key1".into())),
        ]));
        let response = handle_request(request, &mut storage);
        assert_eq!(response, Ok(Value::Int(100)));
        assert_eq!(
            contents(&storage),
            HashMap::from([
                (b"key1".to_vec(), Value::Int(100).into())
            ])
        );
    }
}

fn cmd(parts: &[&str]) -> Value {
    Value::Arr(Some(parts.iter().map(|p| Value::BulkStr(Some(p.as_bytes().to_vec()))).collect()))
}

#[test]
fn unknown_command_names_it() {
    let response = handle_request(cmd(&["FLUSH", "x"]), &mut Storage::default());
    assert_eq!(response, Ok(Value::Error("Unknown command: FLUSH".into())));
}

#[test]
fn first_element_not_bulk_string() {
    let response = handle_request(Value::Arr(Some(vec![Value::Int(1)])), &mut Storage::default());
    assert_eq!(response, Ok(Value::Error("request should be a non-null RESP array of bulk strings".into())));
}

#[test]
fn set_with_ex_and_options_errors() {
    let mut storage = Storage::default();
    assert_eq!(handle_request_at(cmd(&["SET", "k", "v", "EX", "2"]), &mut storage, 10), Ok(Value::Str("OK".into())));
    assert_eq!(handle_request_at(cmd(&["GET", "k"]), &mut storage, 2_000_000_009), Ok(Value::BulkStr(Some(b"v".to_vec()))));
    assert_eq!(handle_request_at(cmd(&["GET", "k"]), &mut storage, 2_000_000_010), Ok(Value::BulkStr(None)));
    assert!(contents(&storage).is_empty());

    assert_eq!(
        handle_request_at(cmd(&["SET", "k", "v", "px"]), &mut storage, 0),
        Ok(Value::Error("expiration time not provided".into()))
    );
    assert_eq!(
        handle_request_at(cmd(&["SET", "k", "v", "nx"]), &mut storage, 0),
        Ok(Value::Error("Unknown optional command nx".into()))
    );
    assert_eq!(
        handle_request_at(cmd(&["SET", "k", "v", "px", "-1"]), &mut storage, 0),
        Ok(Value::Error("BulkStr parsing error: invalid digit found in string".into()))
    );
    assert_eq!(
        handle_request_at(cmd(&["SET", "k", "v", "px", ""]), &mut storage, 0),
        Ok(Value::Error("BulkStr parsing error: cannot parse integer from empty string".into()))
    );
    assert_eq!(
        handle_request_at(cmd(&["SET", "k", "v", "px", "99999999999999999999"]), &mut storage, 0),
        Ok(Value::Error("BulkStr parsing error: number too large to fit in target type".into()))
    );
    let bad_time = Value::Arr(Some(vec![
        Value::BulkStr(Some(b"set".to_vec())),
        Value::BulkStr(Some(b"k".to_vec())),
        Value::Int(1),
        Value::BulkStr(Some(b"PX".to_vec())),
        Value::BulkStr(Some(b"1\xff".to_vec())),
    ]));
    assert_eq!(
        handle_request_at(bad_time, &mut storage, 0),
        Ok(Value::Error("BulkStr parsing error: invalid utf-8 sequence of 1 bytes from index 1".into()))
    );
    let bad_option = Value::Arr(Some(vec![
        Value::BulkStr(Some(b"set".to_vec())),
        Value::BulkStr(Some(b"k".to_vec())),
        Value::Int(1),
        Value::BulkStr(Some(b"a\xffb".to_vec())),
    ]));
    assert_eq!(
        handle_request_at(bad_option, &mut storage, 0),
        Ok(Value::Error("Unknown optional command a\u{FFFD}b".into()))
    );
    assert!(contents(&storage).is_empty());
    // an option that is not a bulk string is ignored
    let ignored = Value::Arr(Some(vec![
        Value::BulkStr(Some(b"set".to_vec())),
        Value::BulkStr(Some(b"k".to_vec())),
        Value::Int(1),
        Value::Int(7),
    ]));
    assert_eq!(handle_request_at(ignored, &mut storage, 0), Ok(Value::Str("OK".into())));
    assert_eq!(handle_request_at(cmd(&["GET", "k"]), &mut storage, u128::MAX), Ok(Value::Int(1)));
}

#[test]
fn lrange_clips_and_empties() {
    let mut storage = Storage::default();
    handle_request(cmd(&["RPUSH", "l", "a", "b", "c"]), &mut storage).unwrap();
    let b = |s: &str| Value::BulkStr(Some(s.as_bytes().to_vec()));
    assert_eq!(handle_request(cmd(&["LRANGE", "l", "0", "100"]), &mut storage), Ok(Value::Arr(Some(vec![b("a"), b("b"), b("c")]))));
    assert_eq!(handle_request(cmd(&["LRANGE", "l", "2", "1"]), &mut storage), Ok(Value::Arr(Some(vec![]))));
    assert_eq!(handle_request(cmd(&["LRANGE", "l", "3", "5"]), &mut storage), Ok(Value::Arr(Some(vec![]))));
    assert_eq!(handle_request(cmd(&["LRANGE", "missing", "0", "5"]), &mut storage), Ok(Value::Arr(Some(vec![]))));
    assert_eq!(handle_request(cmd(&["LRANGE", "l", "0"]), &mut storage), Ok(Value::Error("USAGE: LRANGE <key> <start> <stop>".into())));
    assert_eq!(handle_request(cmd(&["LRANGE", "l", "x", "1"]), &mut storage), Ok(Value::Error("BulkStr parsing error: invalid digit found in string".into())));
    assert!(request_out_of_range(&cmd(&["LRANGE", "l", "-1", "2"]), &storage));
    assert!(!request_out_of_range(&cmd(&["LRANGE", "l", "-1", "-2"]), &storage));
    assert!(!request_out_of_range(&cmd(&["LRANGE", "nothing", "-1", "2"]), &storage));
    assert!(!request_out_of_range(&cmd(&["GET", "l", "-1", "2"]), &storage));
}

#[test]
fn rpush_wrongtype_shows_value() {
    let mut storage = Storage::default();
    handle_request(Value::Arr(Some(vec![b"set".to_vec(), b"s".to_vec()].into_iter().map(|x| Value::BulkStr(Some(x))).chain([Value::Str("x\"y".into())]).collect())), &mut storage).unwrap();
    assert_eq!(
        handle_request(cmd(&["rpush", "s", "v"]), &mut storage),
        Ok(Value::Error("WRONGTYPE for list: Str(\"x\\\"y\")".into()))
    );
    assert_eq!(
        handle_request(cmd(&["rpush", "n"]), &mut storage),
        Ok(Value::Error("USAGE: RPUSH <key> <vals...>".into()))
    );
}

#[test]
fn px_expiry_is_exact_to_the_nanosecond() {
    let mut storage = Storage::default();
    assert_eq!(handle_request_at(cmd(&["SET", "k", "v", "PX", "100"]), &mut storage, 123_700_000), Ok(Value::Str("OK".into())));
    assert_eq!(handle_request_at(cmd(&["GET", "k"]), &mut storage, 223_699_999), Ok(Value::BulkStr(Some(b"v".to_vec()))));
    assert_eq!(handle_request_at(cmd(&["GET", "k"]), &mut storage, 223_700_000), Ok(Value::BulkStr(None)));
}

#[test]
fn read_only_requests_keep_store() {
    let mut storage = Storage::default();
    handle_request(cmd(&["SET", "a", "1"]), &mut storage).unwrap();
    handle_request(cmd(&["RPUSH", "l", "x"]), &mut storage).unwrap();
    let before = contents(&storage);
    for request in [
        cmd(&["PING"]),
        cmd(&["ECHO", "hi"]),
        cmd(&["LRANGE", "l", "0", "9"]),
        cmd(&["DEL", "a"]),
        Value::Int(3),
        Value::Arr(Some(vec![])),
    ] {
        handle_request(request, &mut storage).unwrap();
        assert_eq!(contents(&storage), before);
    }
}

#[test]
fn lrange_whole_list_after_rpush() {
    let mut storage = Storage::default();
    assert_eq!(handle_request(cmd(&["RPUSH", "l", "a", "b"]), &mut storage), Ok(Value::Int(2)));
    assert_eq!(handle_request(cmd(&["RPUSH", "l", "c"]), &mut storage), Ok(Value::Int(3)));
    let b = |s: &str| Value::BulkStr(Some(s.as_bytes().to_vec()));
    assert_eq!(
        handle_request(cmd(&["LRANGE", "l", "0", "2"]), &mut storage),
        Ok(Value::Arr(Some(vec![b("a"), b("b"), b("c")])))
    );
}

#[test]
fn command_names_ignore_case() {
    let mut lower = Storage::default();
    let mut mixed = Storage::default();
    for (a, b) in [
        (cmd(&["set", "k", "v"]), cmd(&["SeT", "k", "v"])),
        (cmd(&["rpush", "l", "x", "y"]), cmd(&["RPUSH", "l", "x", "y"])),
        (cmd(&["get", "k"]), cmd(&["gEt", "k"])),
        (cmd(&["lrange", "l", "0", "5"]), cmd(&["LrAnGe", "l", "0", "5"])),
        (cmd(&["echo", "hi"]), cmd(&["ECHO", "hi"])),
        (cmd(&["ping"]), cmd(&["PING"])),
    ] {
        assert_eq!(handle_request_at(a, &mut lower, 7), handle_request_at(b, &mut mixed, 7));
        assert_eq!(contents(&lower), contents(&mixed));
    }
    assert_eq!(contents(&lower).len(), 2);
}

use codecrafters_redis::resp_parser::{
    AnyParser, ArrParser, BulkStrParser, ErrParser, IntErrorKind, IntParser, Parser, RespError,
    StrParser,
};
use codecrafters_redis::resp_value::Value;

/// Parses the whole input and checks that the value took all of it.
fn parse_all<P: Parser>(input: &[u8]) -> Result<Value, RespError> {
    match P::deserialize(input) {
        Ok(Some((value, used))) => {
            assert_eq!(used, input.len());
            Ok(value)
        }
        Ok(None) => panic!("input ended before the value"),
        Err(e) => Err(e),
    }
}

#[test]
fn test_str_parser() {
    {   // wrong starting byte
        let result = parse_all::<StrParser>(b"-wrong start\r\n");
        assert!(result.is_err());
        assert_eq!(result.unwrap_err(), RespError::StartingByte { expected: b'+', actual: b'-' });
    }
    {   // correct empty string
        let result = parse_all::<StrParser>(b"+\r\n");
        assert!(result.is_ok());
        assert_eq!(result.unwrap(), Value::Str("".into()));
    }
    {   // simple case
        let result = parse_all::<StrParser>(b"+simple case\r\n");
        assert!(result.is_ok());
        assert_eq!(result.unwrap(), Value::Str("simple case".into()));
    }
    {   // CR in the middle and in the end
        let result = parse_all::<StrParser>(b"+with \r in the end\r\r\n");
        assert!(result.is_ok());
        assert_eq!(result.unwrap(), Value::Str("with \r in the end\r".into()));
    }
    {   // LF in the middle and in the end
        let result = parse_all::<StrParser>(b"+with \n in the end\n\r\n");
        assert!(result.is_ok());
        assert_eq!(result.unwrap(), Value::Str("with \n in the end\n".into()));
    }
}

#[test]
fn test_err_parser() {
    {   // wrong starting byte
        let result = parse_all::<ErrParser>(b"+wrong start\r\n");
        assert!(result.is_err());
        assert_eq!(result.unwrap_err(), RespError::StartingByte { expected: b'-', actual: b'+' });
    }
    {   // correct empty string
        let result = parse_all::<ErrParser>(b"-\r\n");
        assert!(result.is_ok());
        assert_eq!(result.unwrap(), Value::Error("".into()));
    }
    {   // simple case
        let result = parse_all::<ErrParser>(b"-simple case\r\n");
        assert!(result.is_ok());
        assert_eq!(result.unwrap(), Value::Error("simple case".into()));
    }
}

#[test]
fn test_int_parser() {
    {   // wrong starting byte
        let result = parse_all::<IntParser>(b"+123\r\n");
        assert!(result.is_err());
        assert_eq!(result.unwrap_err(), RespError::StartingByte { expected: b':', actual: b'+' });
    }
    {   // non-numerical symbol
        let result = parse_all::<IntParser>(b":1a3\r\n");
        assert!(result.is_err());
        assert_eq!(result.unwrap_err(), RespError::ParseInt(IntErrorKind::InvalidDigit));
    }
    {   // empty string (incorrect)
        let result = parse_all::<IntParser>(b":\r\n");
        assert!(result.is_err());
        assert_eq!(result.unwrap_err(), RespError::ParseInt(IntErrorKind::Empty));
    }
    {   // correct int
        let result = parse_all::<IntParser>(b":123\r\n");
        assert!(result.is_ok());
        assert_eq!(result.unwrap(), Value::Int(123));
    }
}

#[test]
fn test_bulk_str_parser() {
    {   // wrong starting byte
        let result = parse_all::<BulkStrParser>(b"+11\r\nwrong start\r\n");
        assert!(result.is_err());
        assert_eq!(result.unwrap_err(), RespError::StartingByte { expected: b'$', actual: b'+' });
    }
    {   // wrong declared len
        let result = parse_all::<BulkStrParser>(b"$8\r\nwrong len\r\n");
        assert!(result.is_err());
        assert_eq!(result.unwrap_err(), RespError::WrongBulkStrEnding(*b"n\r"));
    }
    {   // incorrect null value
        let result = parse_all::<BulkStrParser>(b"$-10\r\n");
        assert!(result.is_err());
        assert_eq!(result.unwrap_err(), RespError::WrongNullValue(*b"-10\r"));
    }
    {   // correct null value
        let result = parse_all::<BulkStrParser>(b"$-1\r\n");
        assert!(result.is_ok());
        assert_eq!(result.unwrap(), Value::BulkStr(None));
    }
    {   // correct empty string
        let result = parse_all::<BulkStrParser>(b"$0\r\n\r\n");
        assert!(result.is_ok());
        assert_eq!(result.unwrap(), Value::BulkStr(Some("".into())));
    }
    {   // correct case (with CRLF in the middle)
        let result = parse_all::<BulkStrParser>(b"$15\r\ncorrect\r\ncase\n\r\r\n");
        assert!(result.is_ok());
        assert_eq!(result.unwrap(), Value::BulkStr(Some("correct\r\ncase\n\r".into())));
    }
}

#[test]
fn test_arr_parser() {
    {   // wrong starting byte
        let result = parse_all::<ArrParser>(b"+3\r\n$4\r\nsome\r\n+number\r\n:321\r\n");
        assert!(result.is_err());
        assert_eq!(result.unwrap_err(), RespError::StartingByte { expected: b'*', actual: b'+' });
    }
    {   // incorrect null array
        let result = ArrParser::deserialize(b"*-111\r\n");
        assert!(result.is_err());
        assert_eq!(result.unwrap_err(), RespError::WrongNullValue(*b"-111"));
    }
    {   // correct null array
        let result = parse_all::<ArrParser>(b"*-1\r\n");
        assert!(result.is_ok());
        assert_eq!(result.unwrap(), Value::Arr(None));
    }
    {   // correct empty array
        let result = parse_all::<ArrParser>(b"*0\r\n");
        assert!(result.is_ok());
        assert_eq!(result.unwrap(), Value::Arr(Some(vec![])));
    }
    {   // correct case 1 [BulkStr, Str, Int]
        let result = parse_all::<ArrParser>(b"*3\r\n$4\r\nsome\r\n+number\r\n:321\r\n");
        assert!(result.is_ok());
        let expected = Value::Arr(Some(vec![
            Value::BulkStr(Some("some".into())),
            Value::Str("number".into()),
            Value::Int(321),
        ]));
        assert_eq!(result.unwrap(), expected);
    }
    {   // correct case 2 [[Int, Int, Int], [Str, Str], [Err]]
        let result = parse_all::<ArrParser>(b"*3\r\n*3\r\n:1\r\n:2\r\n:3\r\n*2\r\n+Hello\r\n+World\r\n*1\r\n-some error\r\n");
        assert!(result.is_ok());
        let expected = Value::Arr(Some(vec![
            Value::Arr(Some(vec![Value::Int(1), Value::Int(2), Value::Int(3)])),
            Value::Arr(Some(vec![Value::Str("Hello".into()), Value::Str("World".into())])),
            Value::Arr(Some(vec![Value::Error("some error".into())])),
        ]));
        assert_eq!(result.unwrap(), expected);
    }
}

#[test]
fn test_any_parser() {
    {   // wrong starting byte
        let result = parse_all::<AnyParser>(b"!\r\nwrong start\r\n");
        assert!(result.is_err());
        assert_eq!(result.unwrap_err(), RespError::UnknownStartingByte(b'!'));
    }
    {   // correct case (Str)
        let result = parse_all::<AnyParser>(b"+with \r in the end\r\r\n");
        assert!(result.is_ok());
        assert_eq!(result.unwrap(), Value::Str("with \r in the end\r".into()));
    }
    {   // correct case (Err)
        let result = parse_all::<AnyParser>(b"-some\nerror\n\r\r\n");
        assert!(result.is_ok());
        assert_eq!(result.unwrap(), Value::Error("some\nerror\n\r".into()));
    }
    {   // correct case (Int)
        let result = parse_all::<AnyParser>(b":12345678\r\n");
        assert!(result.is_ok());
        assert_eq!(result.unwrap(), Value::Int(12345678));
    }
    {   // correct case (BulkStr)
        let result = parse_all::<AnyParser>(b"$14\r\ncorrect\ncase\n\r\r\n");
        assert!(result.is_ok());
        assert_eq!(result.unwrap(), Value::BulkStr(Some("correct\ncase\n\r".into())));
    }
    {   // correct case (Arr)
        let result = parse_all::<AnyParser>(b"*3\r\n*3\r\n:1\r\n:2\r\n:3\r\n*2\r\n+Hello\r\n+World\r\n*1\r\n-some error\r\n");
        assert!(result.is_ok());
        let expected = Value::Arr(Some(vec![
            Value::Arr(Some(vec![Value::Int(1), Value::Int(2), Value::Int(3)])),
            Value::Arr(Some(vec![Value::Str("Hello".into()), Value::Str("World".into())])),
            Value::Arr(Some(vec![Value::Error("some error".into())])),
        ]));
        assert_eq!(result.unwrap(), expected);
    }
}

#[test]
fn incomplete_input_asks_for_more() {
    assert_eq!(AnyParser::deserialize(b""), Ok(None));
    assert_eq!(AnyParser::deserialize(b"+abc"), Ok(None));
    assert_eq!(AnyParser::deserialize(b"+abc\r"), Ok(None));
    assert_eq!(AnyParser::deserialize(b"$5\r\nab"), Ok(None));
    assert_eq!(AnyParser::deserialize(b"$-1\r"), Ok(None));
    assert_eq!(AnyParser::deserialize(b"*2\r\n:1\r\n"), Ok(None));
    assert_eq!(AnyParser::deserialize(b"$"), Ok(None));
}

#[test]
fn value_consumes_only_its_bytes() {
    let result = AnyParser::deserialize(b":7\r\n+next\r\n");
    assert_eq!(result, Ok(Some((Value::Int(7), 4))));
}

#[test]
fn int_limits_and_overflow() {
    assert_eq!(parse_all::<IntParser>(b":-9223372036854775808\r\n"), Ok(Value::Int(i64::MIN)));
    assert_eq!(parse_all::<IntParser>(b":+9223372036854775807\r\n"), Ok(Value::Int(i64::MAX)));
    assert_eq!(parse_all::<IntParser>(b":9223372036854775808\r\n"), Err(RespError::ParseInt(IntErrorKind::PosOverflow)));
    assert_eq!(parse_all::<IntParser>(b":-9223372036854775809\r\n"), Err(RespError::ParseInt(IntErrorKind::NegOverflow)));
    assert_eq!(parse_all::<IntParser>(b":-\r\n"), Err(RespError::ParseInt(IntErrorKind::InvalidDigit)));
    assert_eq!(parse_all::<IntParser>(b":99999999999999999999x\r\n"), Err(RespError::ParseInt(IntErrorKind::PosOverflow)));
}

#[test]
fn bad_length_fields() {
    assert_eq!(parse_all::<BulkStrParser>(b"$x\r\n"), Err(RespError::ParseInt(IntErrorKind::InvalidDigit)));
    assert_eq!(parse_all::<ArrParser>(b"*\r\n"), Err(RespError::ParseInt(IntErrorKind::Empty)));
    let bad = AnyParser::deserialize(b"+\xff\r\n");
    assert!(matches!(bad, Err(RespError::FromUtf8(_))));
}

#[test]
fn serialize_then_parse_round_trip() {
    let value = Value::Arr(Some(vec![
        Value::Str("h\ri".into()),
        Value::Error("e".into()),
        Value::Int(-5),
        Value::BulkStr(Some(b"a\r\nb".to_vec())),
        Value::BulkStr(None),
        Value::Arr(None),
        Value::Arr(Some(vec![Value::Int(0)])),
    ]));
    let mut buf = Vec::new();
    value.serialize(&mut buf);
    let used = buf.len();
    buf.extend_from_slice(b"*1\r\n");
    assert_eq!(AnyParser::deserialize(&buf), Ok(Some((value, used))));
}

#[test]
fn decided_read_does_not_change_with_more_bytes() {
    let first = AnyParser::deserialize(b"-err\r\n");
    assert_eq!(AnyParser::deserialize(b"-err\r\n:12\r\n"), first);
    let failed = AnyParser::deserialize(b"!x");
    assert_eq!(failed, Err(RespError::UnknownStartingByte(b'!')));
    assert_eq!(AnyParser::deserialize(b"!x\r\n+ok\r\n"), failed);
    let bad_ending = AnyParser::deserialize(b"$2\r\nabcd");
    assert_eq!(bad_ending, Err(RespError::WrongBulkStrEnding(*b"cd")));
    assert_eq!(AnyParser::deserialize(b"$2\r\nabcd\r\n"), bad_ending);
}

#[test]
fn non_utf8_lines_report_their_bytes() {
    let expected = |line: &[u8]| RespError::FromUtf8(String::from_utf8(line.to_vec()).unwrap_err());
    assert_eq!(AnyParser::deserialize(b"+ab\xffcd\r\n"), Err(expected(b"ab\xffcd")));
    assert_eq!(AnyParser::deserialize(b":1\xe2\x82\r\n"), Err(expected(b"1\xe2\x82")));
    assert_eq!(AnyParser::deserialize(b"*\xc0\r\n"), Err(expected(b"\xc0")));
    assert_ne!(AnyParser::deserialize(b"+ab\xffcd\r\n"), Err(expected(b"\xff")));
}

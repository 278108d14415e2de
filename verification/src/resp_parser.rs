//! The RESP grammar: reading values from a buffer of received bytes.
//!
//! Each parser reads from the start of the buffer and reports one of three
//! outcomes: a value and the number of bytes it took, a need for more bytes
//! (the buffer ends before the value does), or an error.
use vstd::prelude::*;
use vstd::utf8::*;
use std::string::FromUtf8Error;

pub use crate::decimal::IntErrorKind;
use crate::decimal::{parse_i64, parse_signed, parse_unsigned, parse_usize};
use crate::resp_value::{Value, ValueModel, values_model, lemma_values_model_push};
use crate::text::{string_from_utf8, utf8_error_report, utf8_failure_bytes, utf8_failure_report};

verus! {

/// Why a value could not be read.
#[derive(Debug, PartialEq, Eq)]
pub enum RespError {
    /// The value does not start with the byte that its parser reads.
    StartingByte { expected: u8, actual: u8 },
    /// No kind of value starts with this byte.
    UnknownStartingByte(u8),
    /// Reading or writing the connection failed.
    IO { kind: std::io::ErrorKind, msg: Option<String> },
    /// A line that must be text is not UTF-8.
    FromUtf8(FromUtf8Error),
    /// A number field could not be read.
    ParseInt(IntErrorKind),
    /// A length field that starts with `-` is not `-1`.
    WrongNullValue([u8; 4]),
    /// A bulk string is not followed by CRLF.
    WrongBulkStrEnding([u8; 2]),
}

/// `std::io::ErrorKind`, carried through as an opaque value.
#[verifier::external_type_specification]
#[verifier::external_body]
pub struct ExIoErrorKind(std::io::ErrorKind);

/// The content of a [`RespError`] that the grammar decides.
pub enum ErrorModel {
    StartingByte { expected: u8, actual: u8 },
    UnknownStartingByte(u8),
    Io,
    /// The bytes that are not UTF-8, and what `std::str::from_utf8` reports
    /// of them (`valid_up_to`, `error_len`).
    FromUtf8 { bytes: Seq<u8>, report: (usize, Option<usize>) },
    ParseInt(IntErrorKind),
    WrongNullValue(Seq<u8>),
    WrongBulkStrEnding(Seq<u8>),
}

impl View for RespError {
    type V = ErrorModel;

    open spec fn view(&self) -> ErrorModel {
        match self {
            RespError::StartingByte { expected, actual } => ErrorModel::StartingByte {
                expected: *expected,
                actual: *actual,
            },
            RespError::UnknownStartingByte(b) => ErrorModel::UnknownStartingByte(*b),
            RespError::IO { .. } => ErrorModel::Io,
            RespError::FromUtf8(e) => ErrorModel::FromUtf8 {
                bytes: utf8_failure_bytes(*e),
                report: utf8_failure_report(*e),
            },
            RespError::ParseInt(k) => ErrorModel::ParseInt(*k),
            RespError::WrongNullValue(b) => ErrorModel::WrongNullValue(b@),
            RespError::WrongBulkStrEnding(b) => ErrorModel::WrongBulkStrEnding(b@),
        }
    }
}

/// The outcome of reading one item at a position of the input: the item and
/// the position after it, a need for more input, or an error.
pub enum Step<T> {
    Done(T, int),
    More,
    Fail(ErrorModel),
}

/// The error for a line `l` that must be text and is not UTF-8.
pub open spec fn utf8_failure(l: Seq<u8>) -> ErrorModel {
    ErrorModel::FromUtf8 { bytes: l, report: utf8_error_report(l) }
}

pub open spec fn crlf_at(s: Seq<u8>, i: int) -> bool {
    0 <= i && i + 1 < s.len() && s[i] == 13 && s[i + 1] == 10
}

/// The position of the first CRLF at or after `from`.
pub open spec fn find_crlf(s: Seq<u8>, from: int) -> Option<int>
    decreases s.len() - from,
{
    if from < 0 || from + 1 >= s.len() {
        None
    } else if crlf_at(s, from) {
        Some(from)
    } else {
        find_crlf(s, from + 1)
    }
}

/// The bytes from `pos` up to the first CRLF, and the position after it.
pub open spec fn line_at(s: Seq<u8>, pos: int) -> Step<Seq<u8>> {
    match find_crlf(s, pos) {
        Some(e) => Step::Done(s.subrange(pos, e), e + 2),
        None => Step::More,
    }
}

/// A line that must be UTF-8 text, after the starting byte `start`.
pub open spec fn text_at(s: Seq<u8>, pos: int, start: u8) -> Step<Seq<char>> {
    if pos >= s.len() {
        Step::More
    } else if s[pos] != start {
        Step::Fail(ErrorModel::StartingByte { expected: start, actual: s[pos] })
    } else {
        match line_at(s, pos + 1) {
            Step::Done(l, p) => if valid_utf8(l) {
                Step::Done(decode_utf8(l), p)
            } else {
                Step::Fail(utf8_failure(l))
            },
            Step::More => Step::More,
            Step::Fail(e) => Step::Fail(e),
        }
    }
}

/// An integer line after `:`.
pub open spec fn int_at(s: Seq<u8>, pos: int) -> Step<i64> {
    if pos >= s.len() {
        Step::More
    } else if s[pos] != 58 {
        Step::Fail(ErrorModel::StartingByte { expected: 58, actual: s[pos] })
    } else {
        match line_at(s, pos + 1) {
            Step::Done(l, p) => if !valid_utf8(l) {
                Step::Fail(utf8_failure(l))
            } else {
                match parse_signed(l) {
                    Ok(n) => Step::Done(n, p),
                    Err(k) => Step::Fail(ErrorModel::ParseInt(k)),
                }
            },
            Step::More => Step::More,
            Step::Fail(e) => Step::Fail(e),
        }
    }
}

pub open spec fn null_text() -> Seq<u8> {
    seq![45u8, 49u8, 13u8, 10u8]
}

/// The four bytes `-1\r\n` of a null value.
pub open spec fn null_at(s: Seq<u8>, q: int) -> Step<()> {
    if q + 4 > s.len() {
        Step::More
    } else if s.subrange(q, q + 4) == null_text() {
        Step::Done((), q + 4)
    } else {
        Step::Fail(ErrorModel::WrongNullValue(s.subrange(q, q + 4)))
    }
}

/// A length line: UTF-8 text holding a `usize`.
pub open spec fn length_at(s: Seq<u8>, q: int) -> Step<nat> {
    match line_at(s, q) {
        Step::Done(l, p) => if !valid_utf8(l) {
            Step::Fail(utf8_failure(l))
        } else {
            match parse_unsigned(l, usize::MAX as nat) {
                Ok(n) => Step::Done(n, p),
                Err(k) => Step::Fail(ErrorModel::ParseInt(k)),
            }
        },
        Step::More => Step::More,
        Step::Fail(e) => Step::Fail(e),
    }
}

/// A bulk string after `$`: the null marker, or a length, that many bytes,
/// and CRLF.
pub open spec fn bulk_at(s: Seq<u8>, pos: int) -> Step<Option<Seq<u8>>> {
    if pos >= s.len() {
        Step::More
    } else if s[pos] != 36 {
        Step::Fail(ErrorModel::StartingByte { expected: 36, actual: s[pos] })
    } else if pos + 1 >= s.len() {
        Step::More
    } else if s[pos + 1] == 45 {
        match null_at(s, pos + 1) {
            Step::Done(_, p) => Step::Done(None, p),
            Step::More => Step::More,
            Step::Fail(e) => Step::Fail(e),
        }
    } else {
        match length_at(s, pos + 1) {
            Step::Done(n, p) => if p + n + 2 > s.len() {
                Step::More
            } else if crlf_at(s, p + n) {
                Step::Done(Some(s.subrange(p, p + n)), p + n + 2)
            } else {
                Step::Fail(ErrorModel::WrongBulkStrEnding(s.subrange(p + n, p + n + 2)))
            },
            Step::More => Step::More,
            Step::Fail(e) => Step::Fail(e),
        }
    }
}

/// An array after `*`: the null marker, or a length and that many values.
pub open spec fn arr_at(s: Seq<u8>, pos: int) -> Step<Option<Seq<ValueModel>>>
    decreases s.len() - pos, 0int,
{
    if pos >= s.len() {
        Step::More
    } else if s[pos] != 42 {
        Step::Fail(ErrorModel::StartingByte { expected: 42, actual: s[pos] })
    } else if pos + 1 >= s.len() {
        Step::More
    } else if s[pos + 1] == 45 {
        match null_at(s, pos + 1) {
            Step::Done(_, p) => Step::Done(None, p),
            Step::More => Step::More,
            Step::Fail(e) => Step::Fail(e),
        }
    } else {
        match length_at(s, pos + 1) {
            Step::Done(n, p) => if pos < p <= s.len() {
                match elems_at(s, p, n) {
                    Step::Done(items, q) => Step::Done(Some(items), q),
                    Step::More => Step::More,
                    Step::Fail(e) => Step::Fail(e),
                }
            } else {
                Step::More
            },
            Step::More => Step::More,
            Step::Fail(e) => Step::Fail(e),
        }
    }
}

/// `n` values, one after the other.
pub open spec fn elems_at(s: Seq<u8>, pos: int, n: nat) -> Step<Seq<ValueModel>>
    decreases s.len() - pos, n + 2,
{
    if n == 0 {
        Step::Done(Seq::empty(), pos)
    } else {
        match value_at(s, pos) {
            Step::Done(v, p) => if pos < p <= s.len() {
                match elems_at(s, p, (n - 1) as nat) {
                    Step::Done(vs, q) => Step::Done(seq![v] + vs, q),
                    Step::More => Step::More,
                    Step::Fail(e) => Step::Fail(e),
                }
            } else {
                Step::More
            },
            Step::More => Step::More,
            Step::Fail(e) => Step::Fail(e),
        }
    }
}

/// Any value, chosen by its first byte.
pub open spec fn value_at(s: Seq<u8>, pos: int) -> Step<ValueModel>
    decreases s.len() - pos, 1int,
{
    if pos >= s.len() {
        Step::More
    } else if s[pos] == 43 {
        match text_at(s, pos, 43) {
            Step::Done(t, p) => Step::Done(ValueModel::Str(t), p),
            Step::More => Step::More,
            Step::Fail(e) => Step::Fail(e),
        }
    } else if s[pos] == 45 {
        match text_at(s, pos, 45) {
            Step::Done(t, p) => Step::Done(ValueModel::Error(t), p),
            Step::More => Step::More,
            Step::Fail(e) => Step::Fail(e),
        }
    } else if s[pos] == 58 {
        match int_at(s, pos) {
            Step::Done(n, p) => Step::Done(ValueModel::Int(n), p),
            Step::More => Step::More,
            Step::Fail(e) => Step::Fail(e),
        }
    } else if s[pos] == 36 {
        match bulk_at(s, pos) {
            Step::Done(b, p) => Step::Done(ValueModel::BulkStr(b), p),
            Step::More => Step::More,
            Step::Fail(e) => Step::Fail(e),
        }
    } else if s[pos] == 42 {
        match arr_at(s, pos) {
            Step::Done(a, p) => Step::Done(ValueModel::Arr(a), p),
            Step::More => Step::More,
            Step::Fail(e) => Step::Fail(e),
        }
    } else {
        Step::Fail(ErrorModel::UnknownStartingByte(s[pos]))
    }
}

/// What a parser's answer says, in the terms of [`Step`]: a value and the
/// number of bytes it took, a need for more bytes, or an error.
pub open spec fn outcome(r: Result<Option<(Value, usize)>, RespError>) -> Step<ValueModel> {
    match r {
        Ok(Some((v, n))) => Step::Done(v@, n as int),
        Ok(None) => Step::More,
        Err(e) => Step::Fail(e@),
    }
}

/// A reader of one kind of RESP value from the start of a byte buffer.
pub trait Parser {
    /// What the parser makes of the bytes.
    spec fn grammar(input: Seq<u8>) -> Step<ValueModel>;

    /// Reads a value from the start of `input`.
    fn deserialize(input: &[u8]) -> (r: Result<Option<(Value, usize)>, RespError>)
        ensures
            outcome(r) == Self::grammar(input@),
    ;
}

/// Position of the first CRLF at or after `from`, if the input holds one.
fn find_line_end(input: &[u8], from: usize) -> (r: Option<usize>)
    ensures
        match r {
            Some(e) => find_crlf(input@, from as int) == Some(e as int) && from <= e && e + 1 < input@.len(),
            None => find_crlf(input@, from as int) is None,
        },
{
    let mut i = from;
    while i < input.len() && i + 1 < input.len()
        invariant
            from <= i,
            find_crlf(input@, from as int) == find_crlf(input@, i as int),
        decreases input@.len() - i,
    {
        if input[i] == 13 && input[i + 1] == 10 {
            proof {
                lemma_find_crlf_bounds(input@, i as int);
            }
            return Some(i);
        }
        i = i + 1;
    }
    None
}

/// Reads the line at `pos` (without its CRLF) and the position after it;
/// `None` when no CRLF follows.
fn read_until_crlf(input: &[u8], pos: usize) -> (r: Option<(Vec<u8>, usize)>)
    requires
        pos <= input@.len(),
    ensures
        match r {
            Some((l, p)) => line_at(input@, pos as int) == Step::Done(l@, p as int),
            None => line_at(input@, pos as int) == Step::<Seq<u8>>::More,
        },
{
    match find_line_end(input, pos) {
        Some(e) => {
            let l = vstd::slice::slice_to_vec(vstd::slice::slice_subrange(input, pos, e));
            let len = input.len();
            assert(e + 1 < len);
            Some((l, e + 2))
        },
        None => None,
    }
}

/// Checks the starting byte at `pos` and gives the position after it;
/// `None` when the input ends first.
fn check_starting_byte(input: &[u8], pos: usize, expected: u8) -> (r: Result<Option<usize>, RespError>)
    ensures
        match r {
            Ok(Some(p)) => pos < input@.len() && input@[pos as int] == expected && p == pos + 1,
            Ok(None) => pos >= input@.len(),
            Err(e) => pos < input@.len() && input@[pos as int] != expected && e@
                == ErrorModel::StartingByte { expected: expected, actual: input@[pos as int] },
        },
{
    if pos >= input.len() {
        return Ok(None);
    }
    let actual = input[pos];
    if actual != expected {
        return Err(RespError::StartingByte { expected, actual });
    }
    Ok(Some(pos + 1))
}

/// The byte at `pos`, if the input holds it already.
fn peek_next_byte(input: &[u8], pos: usize) -> (r: Option<u8>)
    ensures
        match r {
            Some(b) => pos < input@.len() && b == input@[pos as int],
            None => pos >= input@.len(),
        },
{
    if pos < input.len() {
        Some(input[pos])
    } else {
        None
    }
}

impl From<FromUtf8Error> for RespError {
    fn from(value: FromUtf8Error) -> (r: Self) {
        Self::FromUtf8(value)
    }
}

impl vstd::std_specs::convert::FromSpecImpl<FromUtf8Error> for RespError {
    open spec fn obeys_from_spec() -> bool {
        true
    }

    open spec fn from_spec(value: FromUtf8Error) -> Self {
        Self::FromUtf8(value)
    }
}

/// Reads a text line after the starting byte `start`.
fn deserialize_str(input: &[u8], pos: usize, start: u8) -> (r: Result<Option<(String, usize)>, RespError>)
    requires
        pos <= input@.len(),
    ensures
        match r {
            Ok(Some((t, p))) => text_at(input@, pos as int, start) == Step::Done(t@, p as int),
            Ok(None) => text_at(input@, pos as int, start) == Step::<Seq<char>>::More,
            Err(e) => text_at(input@, pos as int, start) == Step::<Seq<char>>::Fail(e@),
        },
{
    let next = match check_starting_byte(input, pos, start) {
        Ok(Some(p)) => p,
        Ok(None) => return Ok(None),
        Err(e) => return Err(e),
    };
    match read_until_crlf(input, next) {
        Some((l, p)) => match string_from_utf8(l) {
            Ok(t) => Ok(Some((t, p))),
            Err(e) => Err(RespError::from(e)),
        },
        None => Ok(None),
    }
}

/// Reads an integer line after `:`.
fn deserialize_int(input: &[u8], pos: usize) -> (r: Result<Option<(i64, usize)>, RespError>)
    requires
        pos <= input@.len(),
    ensures
        match r {
            Ok(Some((n, p))) => int_at(input@, pos as int) == Step::Done(n, p as int),
            Ok(None) => int_at(input@, pos as int) == Step::<i64>::More,
            Err(e) => int_at(input@, pos as int) == Step::<i64>::Fail(e@),
        },
{
    let next = match check_starting_byte(input, pos, IntParser::STARTING_BYTE) {
        Ok(Some(p)) => p,
        Ok(None) => return Ok(None),
        Err(e) => return Err(e),
    };
    match read_until_crlf(input, next) {
        Some((l, p)) => {
            let ghost bytes = l@;
            match string_from_utf8(l) {
                Ok(t) => {
                    let digits = t.as_str().as_bytes();
                    proof {
                        decode_utf8_encode_utf8(bytes);
                    }
                    match parse_i64(digits) {
                        Ok(n) => Ok(Some((n, p))),
                        Err(k) => Err(RespError::ParseInt(k)),
                    }
                },
                Err(e) => Err(RespError::FromUtf8(e)),
            }
        },
        None => Ok(None),
    }
}

/// Reads the null marker `-1\r\n` at `q`.
fn deserialize_null(input: &[u8], q: usize) -> (r: Result<Option<usize>, RespError>)
    requires
        q <= input@.len(),
    ensures
        match r {
            Ok(Some(p)) => null_at(input@, q as int) == Step::Done((), p as int),
            Ok(None) => null_at(input@, q as int) == Step::<()>::More,
            Err(e) => null_at(input@, q as int) == Step::<()>::Fail(e@),
        },
{
    if input.len() - q < 4 {
        return Ok(None);
    }
    let b0 = input[q];
    let b1 = input[q + 1];
    let b2 = input[q + 2];
    let b3 = input[q + 3];
    let ghost found = input@.subrange(q as int, q + 4);
    assert(found =~= seq![b0, b1, b2, b3]);
    if b0 == 45 && b1 == 49 && b2 == 13 && b3 == 10 {
        assert(found =~= null_text());
        Ok(Some(q + 4))
    } else {
        assert(found != null_text()) by {
            if found == null_text() {
                assert(found[0] == null_text()[0]);
                assert(found[1] == null_text()[1]);
                assert(found[2] == null_text()[2]);
                assert(found[3] == null_text()[3]);
            }
        }
        let bad = [b0, b1, b2, b3];
        assert(bad@ =~= found);
        Err(RespError::WrongNullValue(bad))
    }
}

/// Reads a length line at `q`.
fn deserialize_len(input: &[u8], q: usize) -> (r: Result<Option<(usize, usize)>, RespError>)
    requires
        q <= input@.len(),
    ensures
        match r {
            Ok(Some((n, p))) => length_at(input@, q as int) == Step::Done(n as nat, p as int),
            Ok(None) => length_at(input@, q as int) == Step::<nat>::More,
            Err(e) => length_at(input@, q as int) == Step::<nat>::Fail(e@),
        },
{
    match read_until_crlf(input, q) {
        Some((l, p)) => {
            let ghost bytes = l@;
            match string_from_utf8(l) {
                Ok(t) => {
                    let digits = t.as_str().as_bytes();
                    proof {
                        decode_utf8_encode_utf8(bytes);
                    }
                    match parse_usize(digits) {
                        Ok(n) => Ok(Some((n, p))),
                        Err(k) => Err(RespError::ParseInt(k)),
                    }
                },
                Err(e) => Err(RespError::FromUtf8(e)),
            }
        },
        None => Ok(None),
    }
}

pub proof fn lemma_find_crlf_bounds(s: Seq<u8>, from: int)
    ensures
        find_crlf(s, from) matches Some(e) ==> 0 <= from <= e && crlf_at(s, e),
    decreases s.len() - from,
{
    if !(from < 0 || from + 1 >= s.len()) && !crlf_at(s, from) {
        lemma_find_crlf_bounds(s, from + 1);
    }
}

/// Reads a bulk string at `pos`.
fn deserialize_bulk(input: &[u8], pos: usize) -> (r: Result<Option<(Option<Vec<u8>>, usize)>, RespError>)
    requires
        pos <= input@.len(),
    ensures
        match r {
            Ok(Some((b, p))) => bulk_at(input@, pos as int) == Step::Done(
                match b {
                    Some(b) => Some(b@),
                    None => None,
                },
                p as int,
            ),
            Ok(None) => bulk_at(input@, pos as int) == Step::<Option<Seq<u8>>>::More,
            Err(e) => bulk_at(input@, pos as int) == Step::<Option<Seq<u8>>>::Fail(e@),
        },
{
    let next = match check_starting_byte(input, pos, BulkStrParser::STARTING_BYTE) {
        Ok(Some(p)) => p,
        Ok(None) => return Ok(None),
        Err(e) => return Err(e),
    };
    let next_byte = match peek_next_byte(input, next) {
        Some(b) => b,
        None => return Ok(None),
    };
    if next_byte == 45 {
        return match deserialize_null(input, next) {
            Ok(Some(p)) => Ok(Some((None, p))),
            Ok(None) => Ok(None),
            Err(e) => Err(e),
        };
    }
    match deserialize_len(input, next) {
        Ok(Some((n, p))) => {
            proof {
                lemma_find_crlf_bounds(input@, pos + 1);
            }
            if n > input.len() - p || input.len() - p - n < 2 {
                return Ok(None);
            }
            let end = p + n;
            let c0 = input[end];
            let c1 = input[end + 1];
            if c0 == 13 && c1 == 10 {
                let data = vstd::slice::slice_to_vec(vstd::slice::slice_subrange(input, p, end));
                Ok(Some((Some(data), end + 2)))
            } else {
                let bad = [c0, c1];
                assert(bad@ =~= input@.subrange(end as int, end + 2));
                Err(RespError::WrongBulkStrEnding(bad))
            }
        },
        Ok(None) => Ok(None),
        Err(e) => Err(e),
    }
}

/// Reads an array at `pos`.
fn deserialize_arr(input: &[u8], pos: usize) -> (r: Result<Option<(Option<Vec<Value>>, usize)>, RespError>)
    requires
        pos <= input@.len(),
    ensures
        match r {
            Ok(Some((a, p))) => arr_at(input@, pos as int) == Step::Done(
                match a {
                    Some(a) => Some(values_model(a@)),
                    None => None,
                },
                p as int,
            ),
            Ok(None) => arr_at(input@, pos as int) == Step::<Option<Seq<ValueModel>>>::More,
            Err(e) => arr_at(input@, pos as int) == Step::<Option<Seq<ValueModel>>>::Fail(e@),
        },
    decreases input@.len() - pos, 0int,
{
    let next = match check_starting_byte(input, pos, ArrParser::STARTING_BYTE) {
        Ok(Some(p)) => p,
        Ok(None) => return Ok(None),
        Err(e) => return Err(e),
    };
    let next_byte = match peek_next_byte(input, next) {
        Some(b) => b,
        None => return Ok(None),
    };
    if next_byte == 45 {
        return match deserialize_null(input, next) {
            Ok(Some(p)) => Ok(Some((None, p))),
            Ok(None) => Ok(None),
            Err(e) => Err(e),
        };
    }
    match deserialize_len(input, next) {
        Ok(Some((n, p))) => {
            proof {
                lemma_find_crlf_bounds(input@, pos + 1);
            }
            match deserialize_elems(input, p, n) {
                Ok(Some((items, q))) => Ok(Some((Some(items), q))),
                Ok(None) => Ok(None),
                Err(e) => Err(e),
            }
        },
        Ok(None) => Ok(None),
        Err(e) => Err(e),
    }
}

/// The outcome of reading `n` values after the values `done` already read.
pub open spec fn after(done: Seq<ValueModel>, rest: Step<Seq<ValueModel>>) -> Step<Seq<ValueModel>> {
    match rest {
        Step::Done(vs, q) => Step::Done(done + vs, q),
        Step::More => Step::More,
        Step::Fail(e) => Step::Fail(e),
    }
}

/// Reads `n` values starting at `pos`.
fn deserialize_elems(input: &[u8], pos: usize, n: usize) -> (r: Result<Option<(Vec<Value>, usize)>, RespError>)
    requires
        pos <= input@.len(),
    ensures
        match r {
            Ok(Some((a, p))) => elems_at(input@, pos as int, n as nat) == Step::Done(values_model(a@), p as int),
            Ok(None) => elems_at(input@, pos as int, n as nat) == Step::<Seq<ValueModel>>::More,
            Err(e) => elems_at(input@, pos as int, n as nat) == Step::<Seq<ValueModel>>::Fail(e@),
        },
    decreases input@.len() - pos, 2int,
{
    let mut values: Vec<Value> = Vec::new();
    let mut p = pos;
    let mut i: usize = 0;
    assert(values_model(values@) =~= Seq::<ValueModel>::empty());
    assert(after(Seq::empty(), elems_at(input@, pos as int, n as nat)) == elems_at(input@, pos as int, n as nat)) by {
        match elems_at(input@, pos as int, n as nat) {
            Step::Done(vs, q) => { assert(Seq::<ValueModel>::empty() + vs =~= vs); },
            _ => {},
        }
    }
    while i < n
        invariant
            i <= n,
            pos <= p <= input@.len(),
            elems_at(input@, pos as int, n as nat) == after(values_model(values@), elems_at(input@, p as int, (n - i) as nat)),
        decreases n - i,
    {
        let res = deserialize_any(input, p);
        match res {
            Ok(Some((v, q))) => {
                proof {
                    lemma_value_advances(input@, p as int);
                    let rest = elems_at(input@, q as int, (n - i - 1) as nat);
                    lemma_values_model_push(values@, v);
                    match rest {
                        Step::Done(vs, e) => {
                            assert(values_model(values@) + (seq![v@] + vs) =~= values_model(values@).push(v@) + vs);
                        },
                        _ => {},
                    }
                }
                values.push(v);
                p = q;
            },
            Ok(None) => return Ok(None),
            Err(e) => return Err(e),
        }
        i = i + 1;
    }
    proof {
        assert(values_model(values@) + Seq::<ValueModel>::empty() =~= values_model(values@));
    }
    Ok(Some((values, p)))
}

/// A value read at a position ends after that position and within the input.
pub proof fn lemma_value_advances(s: Seq<u8>, pos: int)
    ensures
        value_at(s, pos) matches Step::Done(_, p) ==> pos < p <= s.len(),
    decreases s.len() - pos, 1int,
{
    if pos < s.len() {
        lemma_find_crlf_bounds(s, pos + 1);
        lemma_find_crlf_bounds(s, pos + 2);
        if s[pos] == 42 {
            lemma_arr_advances(s, pos);
        }
    }
}

proof fn lemma_arr_advances(s: Seq<u8>, pos: int)
    ensures
        arr_at(s, pos) matches Step::Done(_, p) ==> pos < p <= s.len(),
    decreases s.len() - pos, 0int,
{
    if pos < s.len() && s[pos] == 42 && pos + 1 < s.len() && s[pos + 1] != 45 {
        lemma_find_crlf_bounds(s, pos + 1);
        if let Step::Done(n, p) = length_at(s, pos + 1) {
            if pos < p <= s.len() {
                lemma_elems_advances(s, p, n);
            }
        }
    }
}

proof fn lemma_elems_advances(s: Seq<u8>, pos: int, n: nat)
    requires
        pos <= s.len(),
    ensures
        elems_at(s, pos, n) matches Step::Done(_, p) ==> pos <= p <= s.len(),
    decreases s.len() - pos, n + 2,
{
    if n > 0 {
        lemma_value_advances(s, pos);
        if let Step::Done(v, p) = value_at(s, pos) {
            if pos < p <= s.len() {
                lemma_elems_advances(s, p, (n - 1) as nat);
            }
        }
    }
}

/// Reads any value at `pos`, chosen by its first byte.
fn deserialize_any(input: &[u8], pos: usize) -> (r: Result<Option<(Value, usize)>, RespError>)
    requires
        pos <= input@.len(),
    ensures
        match r {
            Ok(Some((v, p))) => value_at(input@, pos as int) == Step::Done(v@, p as int),
            Ok(None) => value_at(input@, pos as int) == Step::<ValueModel>::More,
            Err(e) => value_at(input@, pos as int) == Step::<ValueModel>::Fail(e@),
        },
    decreases input@.len() - pos, 1int,
{
    if pos >= input.len() {
        return Ok(None);
    }
    let first = input[pos];
    if first == StrParser::STARTING_BYTE {
        match deserialize_str(input, pos, StrParser::STARTING_BYTE) {
            Ok(Some((t, p))) => Ok(Some((Value::Str(t), p))),
            Ok(None) => Ok(None),
            Err(e) => Err(e),
        }
    } else if first == ErrParser::STARTING_BYTE {
        match deserialize_str(input, pos, ErrParser::STARTING_BYTE) {
            Ok(Some((t, p))) => Ok(Some((Value::Error(t), p))),
            Ok(None) => Ok(None),
            Err(e) => Err(e),
        }
    } else if first == IntParser::STARTING_BYTE {
        match deserialize_int(input, pos) {
            Ok(Some((n, p))) => Ok(Some((Value::Int(n), p))),
            Ok(None) => Ok(None),
            Err(e) => Err(e),
        }
    } else if first == BulkStrParser::STARTING_BYTE {
        match deserialize_bulk(input, pos) {
            Ok(Some((b, p))) => Ok(Some((Value::BulkStr(b), p))),
            Ok(None) => Ok(None),
            Err(e) => Err(e),
        }
    } else if first == ArrParser::STARTING_BYTE {
        match deserialize_arr(input, pos) {
            Ok(Some((a, p))) => Ok(Some((Value::Arr(a), p))),
            Ok(None) => Ok(None),
            Err(e) => Err(e),
        }
    } else {
        Err(RespError::UnknownStartingByte(first))
    }
}

/// Reads simple strings (`+`).
pub struct StrParser;

impl StrParser {
    pub const STARTING_BYTE: u8 = 43;
}

impl Parser for StrParser {
    open spec fn grammar(input: Seq<u8>) -> Step<ValueModel> {
        match text_at(input, 0, 43) {
            Step::Done(t, p) => Step::Done(ValueModel::Str(t), p),
            Step::More => Step::More,
            Step::Fail(e) => Step::Fail(e),
        }
    }

    fn deserialize(input: &[u8]) -> (r: Result<Option<(Value, usize)>, RespError>) {
        match deserialize_str(input, 0, Self::STARTING_BYTE) {
            Ok(Some((t, p))) => Ok(Some((Value::Str(t), p))),
            Ok(None) => Ok(None),
            Err(e) => Err(e),
        }
    }
}

/// Reads simple errors (`-`).
pub struct ErrParser;

impl ErrParser {
    pub const STARTING_BYTE: u8 = 45;
}

impl Parser for ErrParser {
    open spec fn grammar(input: Seq<u8>) -> Step<ValueModel> {
        match text_at(input, 0, 45) {
            Step::Done(t, p) => Step::Done(ValueModel::Error(t), p),
            Step::More => Step::More,
            Step::Fail(e) => Step::Fail(e),
        }
    }

    fn deserialize(input: &[u8]) -> (r: Result<Option<(Value, usize)>, RespError>) {
        match deserialize_str(input, 0, Self::STARTING_BYTE) {
            Ok(Some((t, p))) => Ok(Some((Value::Error(t), p))),
            Ok(None) => Ok(None),
            Err(e) => Err(e),
        }
    }
}

/// Reads integers (`:`).
pub struct IntParser;

impl IntParser {
    pub const STARTING_BYTE: u8 = 58;
}

impl Parser for IntParser {
    open spec fn grammar(input: Seq<u8>) -> Step<ValueModel> {
        match int_at(input, 0) {
            Step::Done(n, p) => Step::Done(ValueModel::Int(n), p),
            Step::More => Step::More,
            Step::Fail(e) => Step::Fail(e),
        }
    }

    fn deserialize(input: &[u8]) -> (r: Result<Option<(Value, usize)>, RespError>) {
        match deserialize_int(input, 0) {
            Ok(Some((n, p))) => Ok(Some((Value::Int(n), p))),
            Ok(None) => Ok(None),
            Err(e) => Err(e),
        }
    }
}

/// Reads bulk strings (`$`).
pub struct BulkStrParser;

impl BulkStrParser {
    pub const STARTING_BYTE: u8 = 36;
}

impl Parser for BulkStrParser {
    open spec fn grammar(input: Seq<u8>) -> Step<ValueModel> {
        match bulk_at(input, 0) {
            Step::Done(b, p) => Step::Done(ValueModel::BulkStr(b), p),
            Step::More => Step::More,
            Step::Fail(e) => Step::Fail(e),
        }
    }

    fn deserialize(input: &[u8]) -> (r: Result<Option<(Value, usize)>, RespError>) {
        match deserialize_bulk(input, 0) {
            Ok(Some((b, p))) => Ok(Some((Value::BulkStr(b), p))),
            Ok(None) => Ok(None),
            Err(e) => Err(e),
        }
    }
}

/// Reads arrays (`*`).
pub struct ArrParser;

impl ArrParser {
    pub const STARTING_BYTE: u8 = 42;
}

impl Parser for ArrParser {
    open spec fn grammar(input: Seq<u8>) -> Step<ValueModel> {
        match arr_at(input, 0) {
            Step::Done(a, p) => Step::Done(ValueModel::Arr(a), p),
            Step::More => Step::More,
            Step::Fail(e) => Step::Fail(e),
        }
    }

    fn deserialize(input: &[u8]) -> (r: Result<Option<(Value, usize)>, RespError>) {
        match deserialize_arr(input, 0) {
            Ok(Some((a, p))) => Ok(Some((Value::Arr(a), p))),
            Ok(None) => Ok(None),
            Err(e) => Err(e),
        }
    }
}

/// Reads any value, chosen by its first byte.
pub struct AnyParser;

impl Parser for AnyParser {
    open spec fn grammar(input: Seq<u8>) -> Step<ValueModel> {
        value_at(input, 0)
    }

    fn deserialize(input: &[u8]) -> (r: Result<Option<(Value, usize)>, RespError>) {
        deserialize_any(input, 0)
    }
}

} // verus!

//! Conversions between bytes and text: UTF-8 checks through the standard
//! library, ASCII text built from bytes, and the quoted form of a string.
use vstd::prelude::*;
use vstd::utf8::*;
use std::string::FromUtf8Error;

use crate::decimal::{digits_of, signed_digits, push_digits, push_signed, lemma_digits_of, is_digit};

verus! {

/// `std::string::FromUtf8Error`, carried through as an opaque value.
#[verifier::external_type_specification]
#[verifier::external_body]
pub struct ExFromUtf8Error(FromUtf8Error);

/// Characters of ASCII bytes, one for one.
pub open spec fn ascii_chars(b: Seq<u8>) -> Seq<char> {
    Seq::new(b.len(), |i: int| b[i] as char)
}

pub open spec fn is_ascii_bytes(b: Seq<u8>) -> bool {
    forall|i: int| 0 <= i < b.len() ==> #[trigger] b[i] < 128
}

/// What `std::str::from_utf8` reports for bytes that are not UTF-8: the
/// length of the valid prefix, and the length of the bad sequence after it
/// (none when the input ends inside a sequence).
pub uninterp spec fn utf8_error_report(bytes: Seq<u8>) -> (usize, Option<usize>);

/// The bytes that a `FromUtf8Error` hands back (`FromUtf8Error::as_bytes`):
/// the bytes whose conversion failed.
pub uninterp spec fn utf8_failure_bytes(e: FromUtf8Error) -> Seq<u8>;

/// The two numbers of the `Utf8Error` inside a `FromUtf8Error`
/// (`FromUtf8Error::utf8_error`, then `valid_up_to` and `error_len`).
pub uninterp spec fn utf8_failure_report(e: FromUtf8Error) -> (usize, Option<usize>);

/// The characters that `String::from_utf8_lossy` makes of the bytes.
pub uninterp spec fn utf8_lossy(bytes: Seq<u8>) -> Seq<char>;

/// The text that the standard library's `Debug` formatting gives a string:
/// the string in double quotes, with escapes.
pub uninterp spec fn quoted_debug(s: Seq<char>) -> Seq<char>;

/// Calls `String::from_utf8`. The standard library documents that it fails
/// exactly when the bytes are not UTF-8, and otherwise holds the characters
/// that the bytes encode. The error hands back the bytes that were given
/// (`as_bytes`), and its `utf8_error` is the error that `std::str::from_utf8`
/// reports for them.
#[verifier::external_body]
pub(crate) fn string_from_utf8(bytes: Vec<u8>) -> (r: Result<String, FromUtf8Error>)
    ensures
        r is Ok <==> valid_utf8(bytes@),
        r matches Ok(s) ==> s@ == decode_utf8(bytes@),
        r matches Err(e) ==> utf8_failure_bytes(e) == bytes@,
        r matches Err(e) ==> utf8_failure_report(e) == utf8_error_report(bytes@),
{
    String::from_utf8(bytes)
}

/// Calls `std::str::from_utf8`, and hands its error on as the two numbers it
/// carries (`valid_up_to`, `error_len`). The standard library documents that
/// it fails exactly on bytes that are not UTF-8, and otherwise gives the
/// characters they encode; the error's numbers are a function of the bytes,
/// and `valid_up_to` is the largest length of a prefix that is UTF-8.
#[verifier::external_body]
pub(crate) fn str_from_utf8(bytes: &[u8]) -> (r: Result<&str, (usize, Option<usize>)>)
    ensures
        r is Ok <==> valid_utf8(bytes@),
        r matches Ok(s) ==> s@ == decode_utf8(bytes@),
        r matches Err(report) ==> report == utf8_error_report(bytes@),
        r matches Err(report) ==> report.0 <= bytes@.len() && valid_utf8(
            bytes@.subrange(0, report.0 as int),
        ),
        r matches Err(report) ==> forall|k: int|
            report.0 < k <= bytes@.len() ==> !#[trigger] valid_utf8(bytes@.subrange(0, k)),
{
    match std::str::from_utf8(bytes) {
        Ok(s) => Ok(s),
        Err(e) => Err((e.valid_up_to(), e.error_len())),
    }
}

/// Calls `String::from_utf8_lossy`. Its result is a function of the bytes;
/// the standard library documents that valid UTF-8 comes back unchanged.
#[verifier::external_body]
pub(crate) fn bytes_to_string_lossy(bytes: &[u8]) -> (r: String)
    ensures
        r@ == utf8_lossy(bytes@),
        valid_utf8(bytes@) ==> r@ == decode_utf8(bytes@),
{
    String::from_utf8_lossy(bytes).into_owned()
}

/// Formats a string with `{:?}`, that is `<str as Debug>::fmt`; the result
/// is a function of the string, and nothing more is stated of it.
#[verifier::external_body]
pub(crate) fn quote_debug(s: &str) -> (r: String)
    ensures
        r@ == quoted_debug(s@),
{
    format!("{:?}", s)
}

pub proof fn lemma_ascii_utf8(b: Seq<u8>)
    requires
        is_ascii_bytes(b),
    ensures
        valid_utf8(b),
        decode_utf8(b) == ascii_chars(b),
        encode_utf8(ascii_chars(b)) == b,
{
    let c = ascii_chars(b);
    assert(is_ascii_chars(c)) by {
        assert forall|i: int| 0 <= i < c.len() implies '\0' <= #[trigger] c[i] <= '\u{7f}' by {
            assert(c[i] == b[i] as char);
        }
    }
    is_ascii_chars_encode_utf8(c);
    assert(encode_utf8(c) =~= b);
    encode_utf8_valid_utf8(c);
    encode_utf8_decode_utf8(c);
}

/// Turns ASCII bytes into a string of the same characters.
pub fn ascii_string(bytes: Vec<u8>) -> (r: String)
    requires
        is_ascii_bytes(bytes@),
    ensures
        r@ == ascii_chars(bytes@),
{
    proof {
        lemma_ascii_utf8(bytes@);
    }
    match string_from_utf8(bytes) {
        Ok(s) => s,
        Err(_) => String::new(),
    }
}

pub proof fn lemma_digits_ascii(n: nat)
    ensures
        is_ascii_bytes(digits_of(n)),
{
    lemma_digits_of(n);
    assert forall|i: int| 0 <= i < digits_of(n).len() implies #[trigger] digits_of(n)[i] < 128 by {
        assert(is_digit(digits_of(n)[i]));
    }
}

/// The decimal text of an unsigned number.
pub fn number_text(n: u64) -> (r: String)
    ensures
        r@ == ascii_chars(digits_of(n as nat)),
{
    let mut buf: Vec<u8> = Vec::new();
    push_digits(&mut buf, n);
    proof {
        assert(buf@ =~= digits_of(n as nat));
        lemma_digits_ascii(n as nat);
    }
    ascii_string(buf)
}

/// The decimal text of a signed number.
pub fn signed_text(n: i64) -> (r: String)
    ensures
        r@ == ascii_chars(signed_digits(n as int)),
{
    let mut buf: Vec<u8> = Vec::new();
    push_signed(&mut buf, n);
    proof {
        assert(buf@ =~= signed_digits(n as int));
        if n < 0 {
            lemma_digits_ascii((-n) as nat);
        } else {
            lemma_digits_ascii(n as nat);
        }
        assert(is_ascii_bytes(signed_digits(n as int)));
    }
    ascii_string(buf)
}

} // verus!

//! RESP values, their mathematical model, and their wire encoding.
use vstd::prelude::*;
use vstd::string::*;
use vstd::utf8::*;

use crate::Bytes;
use crate::decimal::{digits_of, signed_digits, push_digits, push_signed};
use crate::resp_parser::{ArrParser, BulkStrParser, ErrParser, IntParser, StrParser};
use crate::text::{ascii_chars, quoted_debug, quote_debug, number_text, signed_text};

verus! {

/// A RESP value: simple string, simple error, integer, bulk string (possibly
/// null) or array (possibly null).
#[derive(Debug, PartialEq, Eq)]
pub enum Value {
    Str(String),
    Error(String),
    Int(i64),
    BulkStr(Option<Bytes>),
    Arr(Option<Vec<Value>>),
}

/// The mathematical content of a [`Value`].
pub enum ValueModel {
    Str(Seq<char>),
    Error(Seq<char>),
    Int(i64),
    BulkStr(Option<Seq<u8>>),
    Arr(Option<Seq<ValueModel>>),
}

pub open spec fn value_model(v: &Value) -> ValueModel
    decreases v,
{
    match v {
        Value::Str(s) => ValueModel::Str(s@),
        Value::Error(s) => ValueModel::Error(s@),
        Value::Int(n) => ValueModel::Int(*n),
        Value::BulkStr(b) => ValueModel::BulkStr(
            match b {
                Some(b) => Some(b@),
                None => None,
            },
        ),
        Value::Arr(a) => ValueModel::Arr(
            match a {
                Some(a) => Some(values_model(a@)),
                None => None,
            },
        ),
    }
}

/// The models of a sequence of values, element by element.
pub open spec fn values_model(s: Seq<Value>) -> Seq<ValueModel>
    decreases s,
{
    if s.len() == 0 {
        Seq::empty()
    } else {
        values_model(s.subrange(0, s.len() - 1)).push(value_model(&s[s.len() - 1]))
    }
}

impl View for Value {
    type V = ValueModel;

    open spec fn view(&self) -> ValueModel {
        value_model(self)
    }
}

pub proof fn lemma_values_model(s: Seq<Value>)
    ensures
        values_model(s).len() == s.len(),
        forall|i: int| 0 <= i < s.len() ==> #[trigger] values_model(s)[i] == s[i]@,
    decreases s.len(),
{
    if s.len() > 0 {
        lemma_values_model(s.subrange(0, s.len() - 1));
    }
}

pub proof fn lemma_values_model_push(s: Seq<Value>, v: Value)
    ensures
        values_model(s.push(v)) == values_model(s).push(v@),
{
    assert(s.push(v).subrange(0, s.len() as int) =~= s);
}

pub proof fn lemma_values_model_concat(a: Seq<Value>, b: Seq<Value>)
    ensures
        values_model(a + b) == values_model(a) + values_model(b),
{
    lemma_values_model(a);
    lemma_values_model(b);
    lemma_values_model(a + b);
    assert(values_model(a + b) =~= values_model(a) + values_model(b));
}

pub open spec fn crlf() -> Seq<u8> {
    seq![13u8, 10u8]
}

/// The length field `-1` that marks a null bulk string or array.
pub open spec fn null_marker() -> Seq<u8> {
    seq![45u8, 49u8]
}

/// The RESP encoding of a value.
pub open spec fn serialized(v: ValueModel) -> Seq<u8>
    decreases v,
{
    match v {
        ValueModel::Str(s) => seq![43u8] + encode_utf8(s) + crlf(),
        ValueModel::Error(s) => seq![45u8] + encode_utf8(s) + crlf(),
        ValueModel::Int(n) => seq![58u8] + signed_digits(n as int) + crlf(),
        ValueModel::BulkStr(None) => seq![36u8] + null_marker() + crlf(),
        ValueModel::BulkStr(Some(b)) => seq![36u8] + digits_of(b.len()) + crlf() + b + crlf(),
        ValueModel::Arr(None) => seq![42u8] + null_marker() + crlf(),
        ValueModel::Arr(Some(items)) => seq![42u8] + digits_of(items.len()) + crlf()
            + serialized_all(items),
    }
}

/// The encodings of the values, one after the other.
pub open spec fn serialized_all(items: Seq<ValueModel>) -> Seq<u8>
    decreases items,
{
    if items.len() == 0 {
        Seq::empty()
    } else {
        serialized_all(items.subrange(0, items.len() - 1)) + serialized(items[items.len() - 1])
    }
}

/// The text of bytes as a bracketed, comma-separated list of numbers.
pub open spec fn bytes_list_text(b: Seq<u8>) -> Seq<char>
    decreases b.len(),
{
    if b.len() == 0 {
        Seq::empty()
    } else if b.len() == 1 {
        ascii_chars(digits_of(b[0] as nat))
    } else {
        bytes_list_text(b.drop_last()) + ", "@ + ascii_chars(digits_of(b.last() as nat))
    }
}

/// Text of a value in the form `Kind(payload)`, as error replies show it; a
/// simple error is written `Err(..)`.
pub open spec fn debug_text(v: ValueModel) -> Seq<char>
    decreases v,
{
    match v {
        ValueModel::Str(s) => "Str("@ + quoted_debug(s) + ")"@,
        ValueModel::Error(s) => "Err("@ + quoted_debug(s) + ")"@,
        ValueModel::Int(n) => "Int("@ + ascii_chars(signed_digits(n as int)) + ")"@,
        ValueModel::BulkStr(None) => "BulkStr(None)"@,
        ValueModel::BulkStr(Some(b)) => "BulkStr(Some(["@ + bytes_list_text(b) + "]))"@,
        ValueModel::Arr(None) => "Arr(None)"@,
        ValueModel::Arr(Some(items)) => "Arr(Some(["@ + debug_list_text(items) + "]))"@,
    }
}

/// The texts of the values, separated by `, `.
pub open spec fn debug_list_text(items: Seq<ValueModel>) -> Seq<char>
    decreases items,
{
    if items.len() == 0 {
        Seq::empty()
    } else if items.len() == 1 {
        debug_text(items[0])
    } else {
        debug_list_text(items.subrange(0, items.len() - 1)) + ", "@ + debug_text(
            items[items.len() - 1],
        )
    }
}

impl Clone for Value {
    fn clone(&self) -> (r: Self)
        ensures
            r@ == self@,
        decreases self,
    {
        match self {
            Value::Str(s) => Value::Str(s.clone()),
            Value::Error(s) => Value::Error(s.clone()),
            Value::Int(n) => Value::Int(*n),
            Value::BulkStr(None) => Value::BulkStr(None),
            Value::BulkStr(Some(b)) => Value::BulkStr(Some(vstd::slice::slice_to_vec(b.as_slice()))),
            Value::Arr(None) => Value::Arr(None),
            Value::Arr(Some(items)) => {
                let mut out: Vec<Value> = Vec::new();
                let mut i: usize = 0;
                #[verifier::loop_isolation(false)]
                while i < items.len()
                    invariant
                        i <= items@.len(),
                        values_model(out@) == values_model(items@).subrange(0, i as int),
                    decreases items@.len() - i,
                {
                    proof {
                        assert(decreases_to!(items@ => items@[i as int]));
                    }
                    let c = items[i].clone();
                    proof {
                        lemma_values_model(items@);
                        lemma_values_model_push(out@, c);
                    }
                    out.push(c);
                    assert(values_model(out@) =~= values_model(items@).subrange(0, i + 1));
                    i = i + 1;
                }
                proof {
                    lemma_values_model(items@);
                    assert(values_model(items@).subrange(0, items@.len() as int) =~= values_model(
                        items@,
                    ));
                }
                Value::Arr(Some(out))
            },
        }
    }
}

impl Default for Value {
    fn default() -> (r: Self)
        ensures
            r@ == ValueModel::BulkStr(None),
    {
        Value::BulkStr(None)
    }
}

impl Value {
    /// Appends the RESP encoding of the value to `buf`.
    pub fn serialize(&self, buf: &mut Bytes)
        ensures
            final(buf)@ == old(buf)@ + serialized(self@),
        decreases self,
    {
        match self {
            Value::Str(s) => Self::serialize_str(buf, s),
            Value::Error(s) => Self::serialize_err(buf, s),
            Value::Int(num) => Self::serialize_int(buf, *num),
            Value::BulkStr(s) => Self::serialize_bulk_str(buf, s),
            Value::Arr(arr) => Self::serialize_arr(buf, arr),
        }
    }

    fn serialize_str(buf: &mut Bytes, s: &String)
        ensures
            final(buf)@ == old(buf)@ + serialized(ValueModel::Str(s@)),
    {
        buf.push(StrParser::STARTING_BYTE);
        Self::push_text_line(buf, s);
        assert(final(buf)@ =~= old(buf)@ + serialized(ValueModel::Str(s@)));
    }

    fn serialize_err(buf: &mut Bytes, s: &String)
        ensures
            final(buf)@ == old(buf)@ + serialized(ValueModel::Error(s@)),
    {
        buf.push(ErrParser::STARTING_BYTE);
        Self::push_text_line(buf, s);
        assert(final(buf)@ =~= old(buf)@ + serialized(ValueModel::Error(s@)));
    }

    /// Appends the UTF-8 bytes of the string and a CRLF.
    fn push_text_line(buf: &mut Bytes, s: &String)
        ensures
            final(buf)@ == old(buf)@ + encode_utf8(s@) + crlf(),
    {
        let bytes = s.as_str().as_bytes();
        let mut i: usize = 0;
        while i < bytes.len()
            invariant
                i <= bytes@.len(),
                bytes@ == encode_utf8(s@),
                buf@ == old(buf)@ + bytes@.subrange(0, i as int),
            decreases bytes@.len() - i,
        {
            buf.push(bytes[i]);
            assert(bytes@.subrange(0, i + 1) =~= bytes@.subrange(0, i as int).push(bytes@[i as int]));
            i = i + 1;
        }
        buf.push(13);
        buf.push(10);
        assert(bytes@.subrange(0, bytes@.len() as int) =~= bytes@);
        assert(final(buf)@ =~= old(buf)@ + encode_utf8(s@) + crlf());
    }

    fn serialize_int(buf: &mut Bytes, num: i64)
        ensures
            final(buf)@ == old(buf)@ + serialized(ValueModel::Int(num)),
    {
        buf.push(IntParser::STARTING_BYTE);
        push_signed(buf, num);
        buf.push(13);
        buf.push(10);
        assert(final(buf)@ =~= old(buf)@ + serialized(ValueModel::Int(num)));
    }

    fn serialize_bulk_str(buf: &mut Bytes, s: &Option<Bytes>)
        ensures
            final(buf)@ == old(buf)@ + serialized(
                ValueModel::BulkStr(
                    match s {
                        Some(b) => Some(b@),
                        None => None,
                    },
                ),
            ),
    {
        buf.push(BulkStrParser::STARTING_BYTE);
        match s {
            Some(s) => {
                push_digits(buf, s.len() as u64);
                buf.push(13);
                buf.push(10);
                let mut i: usize = 0;
                let ghost before = buf@;
                while i < s.len()
                    invariant
                        i <= s@.len(),
                        buf@ == before + s@.subrange(0, i as int),
                    decreases s@.len() - i,
                {
                    buf.push(s[i]);
                    assert(s@.subrange(0, i + 1) =~= s@.subrange(0, i as int).push(s@[i as int]));
                    i = i + 1;
                }
                assert(s@.subrange(0, s@.len() as int) =~= s@);
            },
            None => {
                buf.push(45);
                buf.push(49);
            },
        }
        buf.push(13);
        buf.push(10);
        assert(final(buf)@ =~= old(buf)@ + serialized(
            ValueModel::BulkStr(
                match s {
                    Some(b) => Some(b@),
                    None => None,
                },
            ),
        ));
    }

    fn serialize_arr(buf: &mut Bytes, arr: &Option<Vec<Value>>)
        ensures
            final(buf)@ == old(buf)@ + serialized(
                ValueModel::Arr(
                    match arr {
                        Some(a) => Some(values_model(a@)),
                        None => None,
                    },
                ),
            ),
        decreases arr,
    {
        buf.push(ArrParser::STARTING_BYTE);
        match arr {
            Some(arr) => {
                push_digits(buf, arr.len() as u64);
                buf.push(13);
                buf.push(10);
                let ghost header = buf@;
                let ghost items = values_model(arr@);
                proof {
                    lemma_values_model(arr@);
                    assert(items.subrange(0, 0) =~= Seq::<ValueModel>::empty());
                }
                let mut i: usize = 0;
                #[verifier::loop_isolation(false)]
                while i < arr.len()
                    invariant
                        i <= arr@.len(),
                        items == values_model(arr@),
                        items.len() == arr@.len(),
                        forall|j: int| 0 <= j < arr@.len() ==> #[trigger] items[j] == arr@[j]@,
                        buf@ == header + serialized_all(items.subrange(0, i as int)),
                    decreases arr@.len() - i,
                {
                    proof {
                        assert(decreases_to!(arr@ => arr@[i as int]));
                    }
                    arr[i].serialize(buf);
                    assert(items.subrange(0, i + 1).subrange(0, i as int) =~= items.subrange(
                        0,
                        i as int,
                    ));
                    assert(buf@ =~= header + serialized_all(items.subrange(0, i + 1)));
                    i = i + 1;
                }
                assert(items.subrange(0, arr@.len() as int) =~= items);
            },
            None => {
                buf.push(45);
                buf.push(49);
                buf.push(13);
                buf.push(10);
            },
        }
        assert(final(buf)@ =~= old(buf)@ + serialized(
            ValueModel::Arr(
                match arr {
                    Some(a) => Some(values_model(a@)),
                    None => None,
                },
            ),
        ));
    }

    /// The value in the form `Kind(payload)`, as error replies show it.
    pub fn debug_text(&self) -> (r: String)
        ensures
            r@ == debug_text(self@),
        decreases self,
    {
        match self {
            Value::Str(s) => {
                let mut t = "Str(".to_owned();
                let q = quote_debug(s.as_str());
                t.append(q.as_str());
                t.append(")");
                t
            },
            Value::Error(s) => {
                let mut t = "Err(".to_owned();
                let q = quote_debug(s.as_str());
                t.append(q.as_str());
                t.append(")");
                t
            },
            Value::Int(n) => {
                let mut t = "Int(".to_owned();
                let d = signed_text(*n);
                t.append(d.as_str());
                t.append(")");
                t
            },
            Value::BulkStr(None) => "BulkStr(None)".to_owned(),
            Value::BulkStr(Some(b)) => {
                let mut t = "BulkStr(Some([".to_owned();
                let list = Self::bytes_list(b);
                t.append(list.as_str());
                t.append("]))");
                t
            },
            Value::Arr(None) => "Arr(None)".to_owned(),
            Value::Arr(Some(items)) => {
                let mut list = String::new();
                let ghost ms = values_model(items@);
                proof {
                    lemma_values_model(items@);
                }
                let mut i: usize = 0;
                #[verifier::loop_isolation(false)]
                while i < items.len()
                    invariant
                        i <= items@.len(),
                        ms == values_model(items@),
                        ms.len() == items@.len(),
                        forall|j: int| 0 <= j < items@.len() ==> #[trigger] ms[j] == items@[j]@,
                        list@ == debug_list_text(ms.subrange(0, i as int)),
                    decreases items@.len() - i,
                {
                    proof {
                        assert(decreases_to!(items@ => items@[i as int]));
                    }
                    let d = items[i].debug_text();
                    if i > 0 {
                        list.append(", ");
                    }
                    list.append(d.as_str());
                    proof {
                        let next = ms.subrange(0, i + 1);
                        assert(next.subrange(0, i as int) =~= ms.subrange(0, i as int));
                        assert(list@ =~= debug_list_text(next));
                    }
                    i = i + 1;
                }
                assert(ms.subrange(0, items@.len() as int) =~= ms);
                let mut t = "Arr(Some([".to_owned();
                t.append(list.as_str());
                t.append("]))");
                t
            },
        }
    }

    fn bytes_list(b: &Vec<u8>) -> (r: String)
        ensures
            r@ == bytes_list_text(b@),
    {
        let mut list = String::new();
        let mut i: usize = 0;
        while i < b.len()
            invariant
                i <= b@.len(),
                list@ == bytes_list_text(b@.subrange(0, i as int)),
            decreases b@.len() - i,
        {
            let d = number_text(b[i] as u64);
            if i > 0 {
                list.append(", ");
            }
            list.append(d.as_str());
            proof {
                let next = b@.subrange(0, i + 1);
                assert(next.drop_last() =~= b@.subrange(0, i as int));
                assert(list@ =~= bytes_list_text(next));
            }
            i = i + 1;
        }
        assert(b@.subrange(0, b@.len() as int) =~= b@);
        list
    }
}

} // verus!

//! Reading back what the serializer writes.
use vstd::prelude::*;
use vstd::utf8::*;

use crate::decimal::{digits_of, signed_digits, lemma_digits_of, lemma_parse_digits, lemma_parse_signed_digits, is_digit};
use crate::resp_parser::{Step, crlf_at, find_crlf, line_at, text_at, int_at, null_at, null_text, length_at, bulk_at, arr_at, elems_at, value_at};
use crate::resp_value::{ValueModel, serialized, serialized_all, crlf};
use crate::text::{is_ascii_bytes, lemma_ascii_utf8, lemma_digits_ascii};

verus! {

broadcast use encode_utf8_valid_utf8, encode_utf8_decode_utf8;

/// The bytes hold no CR immediately followed by LF.
pub open spec fn no_crlf(b: Seq<u8>) -> bool {
    forall|i: int| !#[trigger] crlf_at(b, i)
}

/// A value that its encoding describes unambiguously: the text of its simple
/// strings and errors holds no CRLF (a line ends at the first one), and its
/// lengths fit the `usize` that the reader gives them.
pub open spec fn wire_safe(v: ValueModel) -> bool
    decreases v,
{
    match v {
        ValueModel::Str(t) => no_crlf(encode_utf8(t)),
        ValueModel::Error(t) => no_crlf(encode_utf8(t)),
        ValueModel::Int(_) => true,
        ValueModel::BulkStr(None) => true,
        ValueModel::BulkStr(Some(b)) => b.len() <= usize::MAX,
        ValueModel::Arr(None) => true,
        ValueModel::Arr(Some(items)) => items.len() <= usize::MAX && all_wire_safe(items),
    }
}

pub open spec fn all_wire_safe(items: Seq<ValueModel>) -> bool
    decreases items,
{
    if items.len() == 0 {
        true
    } else {
        wire_safe(items[0]) && all_wire_safe(items.subrange(1, items.len() as int))
    }
}

proof fn lemma_sub(s: Seq<u8>, pos: int, whole: Seq<u8>, a: int, b: int)
    requires
        0 <= pos,
        pos + whole.len() <= s.len(),
        s.subrange(pos, pos + whole.len()) == whole,
        0 <= a <= b <= whole.len(),
    ensures
        s.subrange(pos + a, pos + b) == whole.subrange(a, b),
        forall|k: int| a <= k < b ==> s[pos + k] == #[trigger] whole[k],
{
    assert forall|k: int| a <= k < b implies s[pos + k] == #[trigger] whole[k] by {
        assert(s.subrange(pos, pos + whole.len())[k] == s[pos + k]);
    }
    assert(s.subrange(pos + a, pos + b) =~= whole.subrange(a, b));
}

proof fn lemma_find_crlf_at(s: Seq<u8>, from: int, e: int)
    requires
        0 <= from <= e,
        crlf_at(s, e),
        forall|j: int| from <= j < e ==> !#[trigger] crlf_at(s, j),
    ensures
        find_crlf(s, from) == Some(e),
    decreases e - from,
{
    if from < e {
        assert(!crlf_at(s, from));
        lemma_find_crlf_at(s, from + 1, e);
    }
}

/// A line whose content holds no CRLF ends at the CRLF after the content.
proof fn lemma_line_of(s: Seq<u8>, q: int, content: Seq<u8>)
    requires
        0 <= q,
        q + content.len() + 2 <= s.len(),
        s.subrange(q, q + content.len()) == content,
        s[q + content.len()] == 13,
        s[q + content.len() + 1] == 10,
        no_crlf(content),
    ensures
        line_at(s, q) == Step::Done(content, q + content.len() + 2),
{
    let e = q + content.len();
    assert forall|j: int| q <= j < e implies !#[trigger] crlf_at(s, j) by {
        assert(s[j] == s.subrange(q, e)[j - q]);
        if j + 1 < e {
            assert(s[j + 1] == s.subrange(q, e)[j + 1 - q]);
            assert(!crlf_at(content, j - q));
        }
    }
    lemma_find_crlf_at(s, q, e);
}

proof fn lemma_no_cr(b: Seq<u8>)
    requires
        forall|i: int| 0 <= i < b.len() ==> #[trigger] b[i] != 13,
    ensures
        no_crlf(b),
{
    assert forall|i: int| !#[trigger] crlf_at(b, i) by {
        if 0 <= i < b.len() {
            assert(b[i] != 13);
        }
    }
}

proof fn lemma_digits_line(n: nat)
    ensures
        no_crlf(digits_of(n)),
        is_ascii_bytes(digits_of(n)),
        valid_utf8(digits_of(n)),
        is_digit(digits_of(n)[0]),
        digits_of(n).len() >= 1,
{
    lemma_digits_of(n);
    lemma_digits_ascii(n);
    lemma_ascii_utf8(digits_of(n));
    assert forall|i: int| 0 <= i < digits_of(n).len() implies #[trigger] digits_of(n)[i] != 13 by {
        assert(is_digit(digits_of(n)[i]));
    }
    lemma_no_cr(digits_of(n));
}

proof fn lemma_signed_line(n: i64)
    ensures
        no_crlf(signed_digits(n as int)),
        valid_utf8(signed_digits(n as int)),
{
    let t = signed_digits(n as int);
    if n < 0 {
        let m = (-n) as nat;
        lemma_digits_line(m);
        assert forall|i: int| 0 <= i < t.len() implies #[trigger] t[i] != 13 && t[i] < 128 by {
            if i > 0 {
                assert(t[i] == digits_of(m)[i - 1]);
                assert(is_digit(digits_of(m)[i - 1])) by {
                    lemma_digits_of(m);
                }
            }
        }
        lemma_no_cr(t);
        lemma_ascii_utf8(t);
    } else {
        lemma_digits_line(n as nat);
    }
}

/// The length line of a bulk string or array, read back.
proof fn lemma_length_line(s: Seq<u8>, q: int, n: nat)
    requires
        0 <= q,
        n <= usize::MAX,
        q + digits_of(n).len() + 2 <= s.len(),
        s.subrange(q, q + digits_of(n).len() + 2) == digits_of(n) + crlf(),
    ensures
        length_at(s, q) == Step::Done(n, q + digits_of(n).len() + 2),
        is_digit(s[q]),
{
    let d = digits_of(n);
    let dl = d.len() as int;
    lemma_digits_line(n);
    lemma_sub(s, q, d + crlf(), 0, dl);
    lemma_sub(s, q, d + crlf(), dl, dl + 2);
    assert((d + crlf()).subrange(0, dl) =~= d);
    assert((d + crlf())[dl] == 13);
    assert((d + crlf())[dl + 1] == 10);
    assert((d + crlf())[0] == d[0]);
    lemma_line_of(s, q, d);
    lemma_parse_digits(n, usize::MAX as nat);
}

proof fn lemma_text_line(s: Seq<u8>, pos: int, start: u8, t: Seq<char>)
    requires
        no_crlf(encode_utf8(t)),
        0 <= pos,
        pos + (seq![start] + encode_utf8(t) + crlf()).len() <= s.len(),
        s.subrange(pos, pos + (seq![start] + encode_utf8(t) + crlf()).len()) == seq![start]
            + encode_utf8(t) + crlf(),
    ensures
        text_at(s, pos, start) == Step::Done(t, pos + (seq![start] + encode_utf8(t) + crlf()).len()),
{
    let enc = encode_utf8(t);
    let el = enc.len() as int;
    let whole = seq![start] + enc + crlf();
    lemma_sub(s, pos, whole, 0, whole.len() as int);
    lemma_sub(s, pos, whole, 1, 1 + el);
    assert(whole.subrange(1, 1 + el) =~= enc);
    assert(whole[0] == start);
    assert(whole[1 + el] == 13);
    assert(whole[2 + el] == 10);
    lemma_line_of(s, pos + 1, enc);
}

pub proof fn lemma_serialized_front(items: Seq<ValueModel>)
    requires
        items.len() > 0,
    ensures
        serialized_all(items) == serialized(items[0]) + serialized_all(
            items.subrange(1, items.len() as int),
        ),
    decreases items.len(),
{
    if items.len() == 1 {
        assert(items.subrange(0, 0) =~= Seq::<ValueModel>::empty());
        assert(items.subrange(1, 1) =~= Seq::<ValueModel>::empty());
        assert(serialized_all(Seq::<ValueModel>::empty()) == Seq::<u8>::empty());
        assert(serialized_all(items) =~= serialized(items[0]) + serialized_all(
            items.subrange(1, items.len() as int),
        ));
    } else {
        let init = items.subrange(0, items.len() - 1);
        lemma_serialized_front(init);
        assert(init[0] == items[0]);
        assert(init.subrange(1, init.len() as int) =~= items.subrange(1, items.len() as int).subrange(
            0,
            items.len() - 2,
        ));
        assert(items.subrange(1, items.len() as int)[items.len() - 2] == items[items.len() - 1]);
        assert(serialized_all(items) =~= serialized(items[0]) + serialized_all(
            items.subrange(1, items.len() as int),
        ));
    }
}

proof fn lemma_serialized_nonempty(v: ValueModel)
    ensures
        serialized(v).len() >= 3,
{
    match v {
        ValueModel::Int(n) => {
            lemma_signed_line(n);
            if n < 0 {
                lemma_digits_of((-n) as nat);
            } else {
                lemma_digits_of(n as nat);
            }
        },
        ValueModel::BulkStr(Some(b)) => {
            lemma_digits_of(b.len());
        },
        ValueModel::Arr(Some(items)) => {
            lemma_digits_of(items.len());
        },
        _ => {},
    }
}

proof fn lemma_int_serialized(n: i64, s: Seq<u8>, pos: int)
    requires
        0 <= pos,
        pos + serialized(ValueModel::Int(n)).len() <= s.len(),
        s.subrange(pos, pos + serialized(ValueModel::Int(n)).len()) == serialized(ValueModel::Int(n)),
    ensures
        value_at(s, pos) == Step::Done(ValueModel::Int(n), pos + serialized(ValueModel::Int(n)).len()),
{
    let w = serialized(ValueModel::Int(n));
    let d = signed_digits(n as int);
    let dl = d.len() as int;
    lemma_sub(s, pos, w, 0, w.len() as int);
    lemma_signed_line(n);
    lemma_sub(s, pos, w, 1, 1 + dl);
    assert(w.subrange(1, 1 + dl) =~= d);
    assert(w[1 + dl] == 13);
    assert(w[2 + dl] == 10);
    lemma_line_of(s, pos + 1, d);
    lemma_parse_signed_digits(n);
    assert(w[0] == 58);
    assert(s[pos] == 58);
    assert(w.len() == 3 + dl);
    assert(int_at(s, pos) == Step::Done(n, pos + 3 + dl));
}

proof fn lemma_null_serialized(v: ValueModel, s: Seq<u8>, pos: int)
    requires
        v == ValueModel::BulkStr(None) || v == ValueModel::Arr(None),
        0 <= pos,
        pos + serialized(v).len() <= s.len(),
        s.subrange(pos, pos + serialized(v).len()) == serialized(v),
    ensures
        value_at(s, pos) == Step::Done(v, pos + serialized(v).len()),
{
    let w = serialized(v);
    lemma_sub(s, pos, w, 0, w.len() as int);
    lemma_sub(s, pos, w, 1, 5);
    assert(w.subrange(1, 5) =~= null_text());
    assert(w.len() == 5);
    assert(s.subrange(pos + 1, pos + 5) == null_text());
    assert(s[pos + 1] == w[1]);
    assert(w[1] == 45);
    assert(null_at(s, pos + 1) == Step::Done((), pos + 5));
    if v == ValueModel::BulkStr(None) {
        assert(w[0] == 36);
        assert(bulk_at(s, pos) == Step::Done(None::<Seq<u8>>, pos + 5));
    } else {
        assert(w[0] == 42);
        assert(arr_at(s, pos) == Step::Done(None::<Seq<ValueModel>>, pos + 5));
    }
}

proof fn lemma_bulk_serialized(b: Seq<u8>, s: Seq<u8>, pos: int)
    requires
        b.len() <= usize::MAX,
        0 <= pos,
        pos + serialized(ValueModel::BulkStr(Some(b))).len() <= s.len(),
        s.subrange(pos, pos + serialized(ValueModel::BulkStr(Some(b))).len()) == serialized(
            ValueModel::BulkStr(Some(b)),
        ),
    ensures
        value_at(s, pos) == Step::Done(
            ValueModel::BulkStr(Some(b)),
            pos + serialized(ValueModel::BulkStr(Some(b))).len(),
        ),
{
    let w = serialized(ValueModel::BulkStr(Some(b)));
    let d = digits_of(b.len());
    let dl = d.len() as int;
    let bl = b.len() as int;
    lemma_sub(s, pos, w, 0, w.len() as int);
    lemma_digits_line(b.len());
    lemma_sub(s, pos, w, 1, 3 + dl);
    assert(w.subrange(1, 3 + dl) =~= d + crlf());
    lemma_length_line(s, pos + 1, b.len());
    let p = pos + 3 + dl;
    lemma_sub(s, pos, w, 3 + dl, 3 + dl + bl);
    assert(w.subrange(3 + dl, 3 + dl + bl) =~= b);
    assert(w[3 + dl + bl] == 13);
    assert(w[4 + dl + bl] == 10);
    assert(crlf_at(s, p + bl));
    assert(w[0] == 36);
    assert(w.len() == 5 + dl + bl);
    assert(bulk_at(s, pos) == Step::Done(Some(b), pos + w.len()));
}

/// Reading at `pos` the encoding of a wire-safe value gives the value and the
/// position after its encoding.
pub proof fn lemma_value_at_serialized(v: ValueModel, s: Seq<u8>, pos: int)
    requires
        wire_safe(v),
        0 <= pos,
        pos + serialized(v).len() <= s.len(),
        s.subrange(pos, pos + serialized(v).len()) == serialized(v),
    ensures
        value_at(s, pos) == Step::Done(v, pos + serialized(v).len()),
    decreases v,
{
    let w = serialized(v);
    match v {
        ValueModel::Str(t) => {
            lemma_sub(s, pos, w, 0, w.len() as int);
            assert(w[0] == 43);
            lemma_text_line(s, pos, 43, t);
        },
        ValueModel::Error(t) => {
            lemma_sub(s, pos, w, 0, w.len() as int);
            assert(w[0] == 45);
            lemma_text_line(s, pos, 45, t);
        },
        ValueModel::Int(n) => {
            lemma_int_serialized(n, s, pos);
        },
        ValueModel::BulkStr(None) => {
            lemma_null_serialized(v, s, pos);
        },
        ValueModel::BulkStr(Some(b)) => {
            lemma_bulk_serialized(b, s, pos);
        },
        ValueModel::Arr(None) => {
            lemma_null_serialized(v, s, pos);
        },
        ValueModel::Arr(Some(items)) => {
            let d = digits_of(items.len());
            let dl = d.len() as int;
            lemma_sub(s, pos, w, 0, w.len() as int);
            lemma_digits_line(items.len());
            lemma_sub(s, pos, w, 1, 3 + dl);
            assert(w.subrange(1, 3 + dl) =~= d + crlf());
            lemma_length_line(s, pos + 1, items.len());
            let p = pos + 3 + dl;
            let body = serialized_all(items);
            lemma_sub(s, pos, w, 3 + dl, w.len() as int);
            assert(w.subrange(3 + dl, w.len() as int) =~= body);
            lemma_elems_at_serialized(items, s, p);
            assert(w[0] == 42);
            assert(w.len() == 3 + dl + body.len());
            assert(arr_at(s, pos) == Step::Done(Some(items), p + body.len()));
        },
    }
}

/// Reading the encodings of wire-safe values one after the other gives the
/// values.
pub proof fn lemma_elems_at_serialized(items: Seq<ValueModel>, s: Seq<u8>, pos: int)
    requires
        all_wire_safe(items),
        0 <= pos,
        pos + serialized_all(items).len() <= s.len(),
        s.subrange(pos, pos + serialized_all(items).len()) == serialized_all(items),
    ensures
        elems_at(s, pos, items.len()) == Step::Done(items, pos + serialized_all(items).len()),
    decreases items,
{
    if items.len() == 0 {
        assert(items =~= Seq::<ValueModel>::empty());
    } else {
        let first = items[0];
        let rest = items.subrange(1, items.len() as int);
        lemma_serialized_front(items);
        let a = serialized(first);
        let b = serialized_all(rest);
        lemma_sub(s, pos, a + b, 0, a.len() as int);
        assert((a + b).subrange(0, a.len() as int) =~= a);
        lemma_value_at_serialized(first, s, pos);
        lemma_serialized_nonempty(first);
        lemma_sub(s, pos, a + b, a.len() as int, (a + b).len() as int);
        assert((a + b).subrange(a.len() as int, (a + b).len() as int) =~= b);
        lemma_elems_at_serialized(rest, s, pos + a.len());
        assert(seq![first] + rest =~= items);
        assert(rest.len() == (items.len() - 1) as nat);
    }
}

/// Round trip: reading the encoding of a wire-safe value, whatever bytes
/// follow it, gives back the value and consumes exactly its encoding.
pub proof fn law_parse_serialized(v: ValueModel, rest: Seq<u8>)
    requires
        wire_safe(v),
    ensures
        value_at(serialized(v) + rest, 0) == Step::Done(v, serialized(v).len() as int),
{
    let s = serialized(v) + rest;
    assert(s.subrange(0, serialized(v).len() as int) =~= serialized(v));
    lemma_value_at_serialized(v, s, 0);
}

/// Distinct wire-safe values have distinct encodings.
pub proof fn law_serialized_distinct(v1: ValueModel, v2: ValueModel)
    requires
        wire_safe(v1),
        wire_safe(v2),
        serialized(v1) == serialized(v2),
    ensures
        v1 == v2,
{
    law_parse_serialized(v1, Seq::empty());
    law_parse_serialized(v2, Seq::empty());
}

} // verus!

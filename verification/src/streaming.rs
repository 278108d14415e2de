//! Reading from a stream: once the bytes received decide a value (or an
//! error), bytes that arrive later do not change the decision.
use vstd::prelude::*;

use crate::resp_parser::{Step, lemma_find_crlf_bounds, crlf_at, find_crlf, line_at, text_at, int_at, null_at, length_at, bulk_at, arr_at, elems_at, value_at};

verus! {

pub open spec fn decided<T>(st: Step<T>) -> bool {
    !(st is More)
}

proof fn lemma_extend_same(s: Seq<u8>, t: Seq<u8>, a: int, b: int)
    requires
        0 <= a <= b <= s.len(),
    ensures
        (s + t).subrange(a, b) == s.subrange(a, b),
        forall|i: int| a <= i < b ==> (s + t)[i] == s[i],
{
    assert((s + t).subrange(a, b) =~= s.subrange(a, b));
}

proof fn lemma_find_crlf_extend(s: Seq<u8>, t: Seq<u8>, from: int)
    requires
        find_crlf(s, from) is Some,
    ensures
        find_crlf(s + t, from) == find_crlf(s, from),
    decreases s.len() - from,
{
    let u = s + t;
    if from + 1 < s.len() {
        assert(u[from] == s[from] && u[from + 1] == s[from + 1]);
        assert(crlf_at(u, from) == crlf_at(s, from));
        if !crlf_at(s, from) {
            lemma_find_crlf_extend(s, t, from + 1);
        }
    }
}

proof fn lemma_line_extend(s: Seq<u8>, t: Seq<u8>, pos: int)
    requires
        decided(line_at(s, pos)),
    ensures
        line_at(s + t, pos) == line_at(s, pos),
{
    lemma_find_crlf_extend(s, t, pos);
    lemma_find_crlf_bounds(s, pos);
    if let Some(e) = find_crlf(s, pos) {
        lemma_extend_same(s, t, pos, e);
    }
}

proof fn lemma_text_extend(s: Seq<u8>, t: Seq<u8>, pos: int, start: u8)
    requires
        0 <= pos,
        decided(text_at(s, pos, start)),
    ensures
        text_at(s + t, pos, start) == text_at(s, pos, start),
{
    if pos < s.len() && s[pos] == start {
        lemma_line_extend(s, t, pos + 1);
    }
}

proof fn lemma_int_extend(s: Seq<u8>, t: Seq<u8>, pos: int)
    requires
        0 <= pos,
        decided(int_at(s, pos)),
    ensures
        int_at(s + t, pos) == int_at(s, pos),
{
    if pos < s.len() && s[pos] == 58 {
        lemma_line_extend(s, t, pos + 1);
    }
}

proof fn lemma_null_extend(s: Seq<u8>, t: Seq<u8>, q: int)
    requires
        0 <= q,
        decided(null_at(s, q)),
    ensures
        null_at(s + t, q) == null_at(s, q),
{
    lemma_extend_same(s, t, q, q + 4);
}

proof fn lemma_length_extend(s: Seq<u8>, t: Seq<u8>, q: int)
    requires
        decided(length_at(s, q)),
    ensures
        length_at(s + t, q) == length_at(s, q),
{
    lemma_line_extend(s, t, q);
}

proof fn lemma_bulk_extend(s: Seq<u8>, t: Seq<u8>, pos: int)
    requires
        0 <= pos,
        decided(bulk_at(s, pos)),
    ensures
        bulk_at(s + t, pos) == bulk_at(s, pos),
{
    if pos < s.len() {
        assert((s + t)[pos] == s[pos]);
    }
    if pos + 1 < s.len() {
        assert((s + t)[pos + 1] == s[pos + 1]);
    }
    if pos < s.len() && s[pos] == 36 && pos + 1 < s.len() {
        if s[pos + 1] == 45 {
            lemma_null_extend(s, t, pos + 1);
        } else {
            lemma_length_extend(s, t, pos + 1);
            lemma_find_crlf_bounds(s, pos + 1);
            if let Step::Done(n, p) = length_at(s, pos + 1) {
                if p + n + 2 <= s.len() {
                    lemma_extend_same(s, t, p, p + n + 2);
                    assert(crlf_at(s + t, p + n) == crlf_at(s, p + n));
                    assert((s + t).subrange(p, p + n) == s.subrange(p, p + n)) by {
                        lemma_extend_same(s, t, p, p + n);
                    }
                    assert((s + t).subrange(p + n, p + n + 2) == s.subrange(p + n, p + n + 2)) by {
                        lemma_extend_same(s, t, p + n, p + n + 2);
                    }
                }
            }
        }
    }
}

proof fn lemma_arr_extend(s: Seq<u8>, t: Seq<u8>, pos: int)
    requires
        0 <= pos,
        decided(arr_at(s, pos)),
    ensures
        arr_at(s + t, pos) == arr_at(s, pos),
    decreases s.len() - pos, 0int,
{
    if pos < s.len() && s[pos] == 42 && pos + 1 < s.len() {
        if s[pos + 1] == 45 {
            lemma_null_extend(s, t, pos + 1);
        } else {
            lemma_length_extend(s, t, pos + 1);
            if let Step::Done(n, p) = length_at(s, pos + 1) {
                if pos < p <= s.len() {
                    lemma_elems_extend(s, t, p, n);
                }
            }
        }
    }
}

proof fn lemma_elems_extend(s: Seq<u8>, t: Seq<u8>, pos: int, n: nat)
    requires
        0 <= pos <= s.len(),
        decided(elems_at(s, pos, n)),
    ensures
        elems_at(s + t, pos, n) == elems_at(s, pos, n),
    decreases s.len() - pos, n + 2,
{
    if n > 0 {
        lemma_value_extend(s, t, pos);
        if let Step::Done(v, p) = value_at(s, pos) {
            if pos < p <= s.len() {
                lemma_elems_extend(s, t, p, (n - 1) as nat);
            }
        }
    }
}

/// Once the input read from `pos` decides a value or an error, appending
/// bytes to the input does not change the outcome.
pub proof fn lemma_value_extend(s: Seq<u8>, t: Seq<u8>, pos: int)
    requires
        0 <= pos,
        decided(value_at(s, pos)),
    ensures
        value_at(s + t, pos) == value_at(s, pos),
    decreases s.len() - pos, 1int,
{
    if pos < s.len() {
        let b = s[pos];
        assert((s + t)[pos] == b);
        if b == 43 {
            lemma_text_extend(s, t, pos, 43);
        } else if b == 45 {
            lemma_text_extend(s, t, pos, 45);
        } else if b == 58 {
            lemma_int_extend(s, t, pos);
        } else if b == 36 {
            lemma_bulk_extend(s, t, pos);
        } else if b == 42 {
            lemma_arr_extend(s, t, pos);
        }
    }
}

/// Streaming: when the bytes received so far decide a value (or an error),
/// the bytes received later do not change it; only a need for more input
/// can change as input arrives.
pub proof fn law_decided_read_is_final(received: Seq<u8>, later: Seq<u8>)
    requires
        decided(value_at(received, 0)),
    ensures
        value_at(received + later, 0) == value_at(received, 0),
{
    lemma_value_extend(received, later, 0);
}

} // verus!

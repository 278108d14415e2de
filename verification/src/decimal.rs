//! Decimal text for integers: the digits that the serializer writes, and the
//! integer grammar (optional sign, then ASCII digits) that the parser and the
//! command handler read.
use vstd::prelude::*;

verus! {

/// Why a decimal integer could not be read; the same kinds, in the same
/// situations, that the standard library reports when parsing integers.
#[derive(Debug, Clone, Copy, PartialEq, Eq, Structural)]
pub enum IntErrorKind {
    /// The text is empty.
    Empty,
    /// The text holds a byte that is not a digit (or is a lone sign).
    InvalidDigit,
    /// The value is above the largest value of the target type.
    PosOverflow,
    /// The value is below the smallest value of the target type.
    NegOverflow,
}

pub open spec fn is_digit(b: u8) -> bool {
    48 <= b && b <= 57
}

pub open spec fn all_digits(d: Seq<u8>) -> bool {
    forall|i: int| 0 <= i < d.len() ==> is_digit(#[trigger] d[i])
}

/// Decimal digits of `n`, most significant first, without leading zeros.
pub open spec fn digits_of(n: nat) -> Seq<u8>
    decreases n,
{
    if n < 10 {
        seq![(n + 48) as u8]
    } else {
        digits_of(n / 10).push((n % 10 + 48) as u8)
    }
}

/// Decimal text of a signed number: a minus sign before the digits of its
/// magnitude when it is negative.
pub open spec fn signed_digits(n: int) -> Seq<u8> {
    if n < 0 {
        seq![45u8] + digits_of((-n) as nat)
    } else {
        digits_of(n as nat)
    }
}

/// The number that a string of digits denotes.
pub open spec fn digits_value(d: Seq<u8>) -> nat
    decreases d.len(),
{
    if d.len() == 0 {
        0
    } else {
        digits_value(d.drop_last()) * 10 + (d.last() - 48) as nat
    }
}

/// How many digits the text starts with.
pub open spec fn leading_digits(d: Seq<u8>) -> nat
    decreases d.len(),
{
    if d.len() == 0 || !is_digit(d[0]) {
        0
    } else {
        1 + leading_digits(d.drop_first())
    }
}

/// Reads unsigned digits whose value may not exceed `max`. Digits are read
/// from the left: a run of digits whose value passes `max` is reported as
/// `overflow`; otherwise a byte that is not a digit is `InvalidDigit`.
pub open spec fn parse_magnitude(d: Seq<u8>, max: nat, overflow: IntErrorKind) -> Result<
    nat,
    IntErrorKind,
> {
    let k = leading_digits(d);
    if digits_value(d.take(k as int)) > max {
        Err(overflow)
    } else if k < d.len() {
        Err(IntErrorKind::InvalidDigit)
    } else {
        Ok(digits_value(d))
    }
}

pub open spec fn is_sign(b: u8) -> bool {
    b == 43 || b == 45
}

/// The value of the text read as an unsigned integer no larger than `max`
/// (an optional `+`, then digits).
pub open spec fn parse_unsigned(t: Seq<u8>, max: nat) -> Result<nat, IntErrorKind> {
    if t.len() == 0 {
        Err(IntErrorKind::Empty)
    } else if t.len() == 1 && is_sign(t[0]) {
        Err(IntErrorKind::InvalidDigit)
    } else if t[0] == 43 {
        parse_magnitude(t.drop_first(), max, IntErrorKind::PosOverflow)
    } else {
        parse_magnitude(t, max, IntErrorKind::PosOverflow)
    }
}

pub open spec fn i64_magnitude_limit() -> nat {
    0x8000_0000_0000_0000
}

/// The value of the text read as an `i64` (an optional `+` or `-`, then
/// digits).
pub open spec fn parse_signed(t: Seq<u8>) -> Result<i64, IntErrorKind> {
    if t.len() == 0 {
        Err(IntErrorKind::Empty)
    } else if t.len() == 1 && is_sign(t[0]) {
        Err(IntErrorKind::InvalidDigit)
    } else if t[0] == 45 {
        match parse_magnitude(t.drop_first(), i64_magnitude_limit(), IntErrorKind::NegOverflow) {
            Ok(m) => Ok((-m) as i64),
            Err(e) => Err(e),
        }
    } else {
        let d = if t[0] == 43 {
            t.drop_first()
        } else {
            t
        };
        match parse_magnitude(d, i64::MAX as nat, IntErrorKind::PosOverflow) {
            Ok(m) => Ok(m as i64),
            Err(e) => Err(e),
        }
    }
}

/// The text that describes each kind, as the standard library words it.
pub open spec fn kind_message(k: IntErrorKind) -> Seq<char> {
    match k {
        IntErrorKind::Empty => "cannot parse integer from empty string"@,
        IntErrorKind::InvalidDigit => "invalid digit found in string"@,
        IntErrorKind::PosOverflow => "number too large to fit in target type"@,
        IntErrorKind::NegOverflow => "number too small to fit in target type"@,
    }
}

pub open spec fn nat_result(r: Result<u64, IntErrorKind>) -> Result<nat, IntErrorKind> {
    match r {
        Ok(v) => Ok(v as nat),
        Err(e) => Err(e),
    }
}

impl IntErrorKind {
    /// The description of the error kind.
    pub fn message(&self) -> (r: &'static str)
        ensures
            r@ == kind_message(*self),
    {
        match self {
            IntErrorKind::Empty => "cannot parse integer from empty string",
            IntErrorKind::InvalidDigit => "invalid digit found in string",
            IntErrorKind::PosOverflow => "number too large to fit in target type",
            IntErrorKind::NegOverflow => "number too small to fit in target type",
        }
    }
}

pub proof fn lemma_value_step(d: Seq<u8>, i: int)
    requires
        0 <= i < d.len(),
    ensures
        digits_value(d.take(i + 1)) == digits_value(d.take(i)) * 10 + (d[i] - 48) as nat,
{
    assert(d.take(i + 1).drop_last() =~= d.take(i));
}

pub proof fn lemma_value_monotone(d: Seq<u8>, a: int, b: int)
    requires
        0 <= a <= b <= d.len(),
        forall|i: int| 0 <= i < b ==> is_digit(#[trigger] d[i]),
    ensures
        digits_value(d.take(a)) <= digits_value(d.take(b)),
    decreases b - a,
{
    if a < b {
        lemma_value_monotone(d, a, b - 1);
        lemma_value_step(d, b - 1);
    }
}

pub proof fn lemma_leading_exact(d: Seq<u8>, k: int)
    requires
        0 <= k <= d.len(),
        forall|i: int| 0 <= i < k ==> is_digit(#[trigger] d[i]),
        k == d.len() || !is_digit(d[k]),
    ensures
        leading_digits(d) == k,
    decreases k,
{
    if k > 0 {
        let rest = d.drop_first();
        assert forall|i: int| 0 <= i < k - 1 implies is_digit(#[trigger] rest[i]) by {
            assert(rest[i] == d[i + 1]);
        }
        if k - 1 < rest.len() {
            assert(rest[k - 1] == d[k]);
        }
        lemma_leading_exact(rest, k - 1);
    }
}

pub proof fn lemma_leading_bounds(d: Seq<u8>)
    ensures
        leading_digits(d) <= d.len(),
        forall|i: int| 0 <= i < leading_digits(d) ==> is_digit(#[trigger] d[i]),
        leading_digits(d) < d.len() ==> !is_digit(d[leading_digits(d) as int]),
    decreases d.len(),
{
    if d.len() > 0 && is_digit(d[0]) {
        let rest = d.drop_first();
        lemma_leading_bounds(rest);
        assert forall|i: int| 0 <= i < leading_digits(d) implies is_digit(#[trigger] d[i]) by {
            if i > 0 {
                assert(d[i] == rest[i - 1]);
            }
        }
        if leading_digits(d) < d.len() {
            assert(d[leading_digits(d) as int] == rest[leading_digits(rest) as int]);
        }
    }
}

/// Reads the digits of `d` from `start` on as a magnitude no larger than
/// `max`.
fn scan_magnitude(d: &[u8], start: usize, max: u64, overflow: IntErrorKind) -> (r: Result<
    u64,
    IntErrorKind,
>)
    requires
        start <= d@.len(),
    ensures
        nat_result(r) == parse_magnitude(d@.skip(start as int), max as nat, overflow),
        r matches Ok(v) ==> v <= max,
{
    let ghost t = d@.skip(start as int);
    let mut acc: u64 = 0;
    let mut i: usize = start;
    assert(t.take(0) =~= Seq::<u8>::empty());
    while i < d.len()
        invariant
            start <= i <= d@.len(),
            t == d@.skip(start as int),
            forall|j: int| 0 <= j < i - start ==> is_digit(#[trigger] t[j]),
            acc as nat == digits_value(t.take(i - start)),
            acc <= max,
        decreases d@.len() - i,
    {
        let b = d[i];
        assert(t[i - start] == b);
        if b < 48 || b > 57 {
            proof {
                lemma_leading_exact(t, i - start);
            }
            return Err(IntErrorKind::InvalidDigit);
        }
        let next: u128 = (acc as u128) * 10 + ((b - 48) as u128);
        proof {
            lemma_value_step(t, i - start);
        }
        if next > max as u128 {
            proof {
                lemma_leading_bounds(t);
                let k = leading_digits(t) as int;
                if k < i - start + 1 {
                    assert(is_digit(t[k]));
                }
                lemma_value_monotone(t, i - start + 1, k);
            }
            return Err(overflow);
        }
        acc = next as u64;
        i = i + 1;
    }
    proof {
        lemma_leading_exact(t, t.len() as int);
        assert(t.take(t.len() as int) =~= t);
    }
    Ok(acc)
}

/// Reads the text as an unsigned integer no larger than `max`.
fn parse_unsigned_bounded(t: &[u8], max: u64) -> (r: Result<u64, IntErrorKind>)
    ensures
        nat_result(r) == parse_unsigned(t@, max as nat),
        r matches Ok(v) ==> v <= max,
{
    if t.len() == 0 {
        return Err(IntErrorKind::Empty);
    }
    if t.len() == 1 && (t[0] == 43 || t[0] == 45) {
        return Err(IntErrorKind::InvalidDigit);
    }
    if t[0] == 43 {
        assert(t@.skip(1) =~= t@.drop_first());
        scan_magnitude(t, 1, max, IntErrorKind::PosOverflow)
    } else {
        assert(t@.skip(0) =~= t@);
        scan_magnitude(t, 0, max, IntErrorKind::PosOverflow)
    }
}

/// Reads the text as a `u64`.
pub fn parse_u64(t: &[u8]) -> (r: Result<u64, IntErrorKind>)
    ensures
        nat_result(r) == parse_unsigned(t@, u64::MAX as nat),
{
    parse_unsigned_bounded(t, u64::MAX)
}

/// Reads the text as a `usize`.
pub fn parse_usize(t: &[u8]) -> (r: Result<usize, IntErrorKind>)
    ensures
        match r {
            Ok(v) => parse_unsigned(t@, usize::MAX as nat) == Ok::<nat, IntErrorKind>(v as nat),
            Err(e) => parse_unsigned(t@, usize::MAX as nat) == Err::<nat, IntErrorKind>(e),
        },
{
    match parse_unsigned_bounded(t, usize::MAX as u64) {
        Ok(v) => Ok(v as usize),
        Err(e) => Err(e),
    }
}

/// Reads the text as an `i64`.
pub fn parse_i64(t: &[u8]) -> (r: Result<i64, IntErrorKind>)
    ensures
        r == parse_signed(t@),
{
    if t.len() == 0 {
        return Err(IntErrorKind::Empty);
    }
    if t.len() == 1 && (t[0] == 43 || t[0] == 45) {
        return Err(IntErrorKind::InvalidDigit);
    }
    if t[0] == 45 {
        assert(t@.skip(1) =~= t@.drop_first());
        match scan_magnitude(t, 1, 0x8000_0000_0000_0000u64, IntErrorKind::NegOverflow) {
            Ok(m) => {
                let v: i128 = -(m as i128);
                Ok(v as i64)
            },
            Err(e) => Err(e),
        }
    } else {
        let r = if t[0] == 43 {
            assert(t@.skip(1) =~= t@.drop_first());
            scan_magnitude(t, 1, 0x7fff_ffff_ffff_ffffu64, IntErrorKind::PosOverflow)
        } else {
            assert(t@.skip(0) =~= t@);
            scan_magnitude(t, 0, 0x7fff_ffff_ffff_ffffu64, IntErrorKind::PosOverflow)
        };
        match r {
            Ok(m) => Ok(m as i64),
            Err(e) => Err(e),
        }
    }
}

/// Appends the decimal digits of `n`.
pub fn push_digits(buf: &mut Vec<u8>, n: u64)
    ensures
        final(buf)@ == old(buf)@ + digits_of(n as nat),
    decreases n,
{
    if n >= 10 {
        push_digits(buf, n / 10);
    }
    let d: u8 = (n % 10) as u8;
    buf.push(d + 48);
    proof {
        if n < 10 {
            assert(digits_of(n as nat) =~= seq![(n + 48) as u8]);
        }
    }
    assert(final(buf)@ =~= old(buf)@ + digits_of(n as nat));
}

/// Appends the decimal text of a signed number.
pub fn push_signed(buf: &mut Vec<u8>, n: i64)
    ensures
        final(buf)@ == old(buf)@ + signed_digits(n as int),
{
    if n < 0 {
        buf.push(45);
        let m: i128 = -(n as i128);
        push_digits(buf, m as u64);
        assert(final(buf)@ =~= old(buf)@ + signed_digits(n as int));
    } else {
        push_digits(buf, n as u64);
    }
}

pub proof fn lemma_digits_of(n: nat)
    ensures
        digits_of(n).len() >= 1,
        all_digits(digits_of(n)),
        digits_value(digits_of(n)) == n,
        is_digit(digits_of(n)[0]),
    decreases n,
{
    if n < 10 {
        let d = digits_of(n);
        assert(d.drop_last() =~= Seq::<u8>::empty());
        assert(d.last() == (n + 48) as u8);
        assert(digits_value(d) == digits_value(d.drop_last()) * 10 + (d.last() - 48) as nat);
    } else {
        lemma_digits_of(n / 10);
        let d = digits_of(n);
        assert(n == (n / 10) * 10 + n % 10);
        assert(d.drop_last() =~= digits_of(n / 10));
        assert(d[0] == digits_of(n / 10)[0]);
        assert(d.last() == (n % 10 + 48) as u8);
        assert(digits_value(d) == digits_value(d.drop_last()) * 10 + (d.last() - 48) as nat);
    }
}

pub proof fn lemma_parse_digits(n: nat, max: nat)
    requires
        n <= max,
    ensures
        parse_unsigned(digits_of(n), max) == Ok::<nat, IntErrorKind>(n),
        parse_magnitude(digits_of(n), max, IntErrorKind::PosOverflow) == Ok::<nat, IntErrorKind>(n),
{
    let d = digits_of(n);
    lemma_digits_of(n);
    lemma_leading_exact(d, d.len() as int);
    assert(d.take(d.len() as int) =~= d);
}

/// Reading back the decimal text of an `i64` gives the number.
pub proof fn lemma_parse_signed_digits(n: i64)
    ensures
        parse_signed(signed_digits(n as int)) == Ok::<i64, IntErrorKind>(n),
{
    if n < 0 {
        let m = (-n) as nat;
        let t = signed_digits(n as int);
        lemma_digits_of(m);
        assert(t.drop_first() =~= digits_of(m));
        lemma_parse_digits(m, i64_magnitude_limit());
    } else {
        lemma_digits_of(n as nat);
        lemma_parse_digits(n as nat, i64::MAX as nat);
    }
}

} // verus!

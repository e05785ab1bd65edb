//! Decimal numbers as they appear on the wire and in configuration values.
use vstd::prelude::*;

verus! {

pub open spec fn is_digit(b: u8) -> bool {
    48 <= b <= 57
}

pub open spec fn all_digits(t: Seq<u8>) -> bool {
    forall|i: int| 0 <= i < t.len() ==> is_digit(#[trigger] t[i])
}

/// The value of a run of decimal digits, most significant first.
pub open spec fn digits_value(d: Seq<u8>) -> nat
    decreases d.len(),
{
    if d.len() == 0 {
        0
    } else {
        digits_value(d.drop_last()) * 10 + (d.last() - 48) as nat
    }
}

/// How many decimal digits follow one another in `t` from index `i` on.
pub open spec fn digit_run(t: Seq<u8>, i: int) -> nat
    decreases t.len() - i,
{
    if 0 <= i < t.len() && is_digit(t[i]) {
        1 + digit_run(t, i + 1)
    } else {
        0
    }
}

/// One when `t` starts with a `+` or `-` sign, else zero.
pub open spec fn sign_len(t: Seq<u8>) -> int {
    if t.len() > 0 && (t[0] == 43u8 || t[0] == 45u8) {
        1
    } else {
        0
    }
}

/// A number read from the start of `t`: an optional sign, then the longest run
/// of digits; whatever follows the digits is ignored. Nothing is read from an
/// empty text or from one that starts with neither a sign nor a digit, nor a
/// value that does not fit in 64 bits; behind a minus sign only zero fits.
pub open spec fn leading_u64(t: Seq<u8>) -> Option<u64> {
    let off = sign_len(t);
    let k = digit_run(t, off);
    let v = digits_value(t.subrange(off, off + k));
    if off + k == 0 {
        None
    } else if off == 1 && t[0] == 45u8 {
        if v == 0 {
            Some(0u64)
        } else {
            None
        }
    } else if v <= u64::MAX {
        Some(v as u64)
    } else {
        None
    }
}

/// The shortest decimal form of `n`.
pub open spec fn decimal_digits(n: nat) -> Seq<u8>
    decreases n,
{
    if n < 10 {
        seq![(48 + n) as u8]
    } else {
        decimal_digits(n / 10).push((48 + n % 10) as u8)
    }
}

/// A port number in text: an optional `+`, then one or more digits, and
/// nothing else, of value at most 65535.
pub open spec fn u16_of(t: Seq<u8>) -> Option<u16> {
    let d = if t.len() > 0 && t[0] == 43u8 {
        t.drop_first()
    } else {
        t
    };
    if d.len() > 0 && all_digits(d) && digits_value(d) <= u16::MAX {
        Some(digits_value(d) as u16)
    } else {
        None
    }
}

/// Relies on `atoi::atoi::<u64>`, which reads an optional sign and then the
/// longest run of digits, with checked arithmetic.
#[verifier::external_body]
fn atoi_u64(text: &[u8]) -> (r: Option<u64>)
    ensures
        r == leading_u64(text@),
{
    atoi::atoi::<u64>(text)
}

/// One or more ASCII digits and nothing else.
pub open spec fn is_decimal(t: Seq<u8>) -> bool {
    t.len() > 0 && all_digits(t)
}

/// An unsigned decimal number that fits in 64 bits, written with digits only.
pub open spec fn decimal_of(t: Seq<u8>) -> Option<u64> {
    if is_decimal(t) {
        leading_u64(t)
    } else {
        None
    }
}

/// Whether `text` is one or more ASCII digits and nothing else.
pub fn is_decimal_text(text: &[u8]) -> (r: bool)
    ensures
        r == is_decimal(text@),
{
    if text.len() == 0 {
        return false;
    }
    let mut i: usize = 0;
    while i < text.len()
        invariant
            0 <= i <= text@.len(),
            forall|j: int| 0 <= j < i ==> is_digit(#[trigger] text@[j]),
        decreases text@.len() - i,
    {
        if text[i] < 48u8 || text[i] > 57u8 {
            assert(!is_digit(text@[i as int]));
            return false;
        }
        i = i + 1;
    }
    true
}

/// Reads an unsigned decimal number written with digits only.
pub fn read_decimal(text: &[u8]) -> (r: Option<u64>)
    ensures
        r == decimal_of(text@),
{
    if !is_decimal_text(text) {
        return None;
    }
    atoi_u64(text)
}

/// Appends the decimal form of `n` to `out`.
pub fn push_decimal(out: &mut Vec<u8>, n: u64)
    ensures
        final(out)@ == old(out)@ + decimal_digits(n as nat),
    decreases n,
{
    if n >= 10 {
        push_decimal(out, n / 10);
    }
    let d: u8 = (n % 10) as u8;
    out.push(48u8 + d);
    assert(out@ =~= old(out)@ + decimal_digits(n as nat));
}

/// The decimal form of `n`.
pub fn decimal(n: u64) -> (r: Vec<u8>)
    ensures
        r@ == decimal_digits(n as nat),
{
    let mut out: Vec<u8> = Vec::new();
    push_decimal(&mut out, n);
    assert(out@ =~= decimal_digits(n as nat));
    out
}

pub proof fn lemma_digits_value_prefix(d: Seq<u8>, i: int)
    requires
        0 <= i <= d.len(),
    ensures
        digits_value(d.subrange(0, i)) <= digits_value(d),
    decreases d.len() - i,
{
    if i < d.len() {
        lemma_digits_value_prefix(d, i + 1);
        assert(d.subrange(0, i + 1).drop_last() =~= d.subrange(0, i));
    } else {
        assert(d.subrange(0, i) =~= d);
    }
}

pub proof fn lemma_digit_run_all(t: Seq<u8>, i: int)
    requires
        0 <= i <= t.len(),
        forall|j: int| i <= j < t.len() ==> is_digit(#[trigger] t[j]),
    ensures
        digit_run(t, i) == t.len() - i,
    decreases t.len() - i,
{
    if i < t.len() {
        lemma_digit_run_all(t, i + 1);
    }
}

/// The decimal form of a number is made of digits and reads back as that number.
pub proof fn lemma_decimal_digits(n: nat)
    ensures
        decimal_digits(n).len() >= 1,
        all_digits(decimal_digits(n)),
        digits_value(decimal_digits(n)) == n,
    decreases n,
{
    if n >= 10 {
        lemma_decimal_digits(n / 10);
        assert(decimal_digits(n).drop_last() =~= decimal_digits(n / 10));
        assert(decimal_digits(n).last() - 48 == n % 10);
        assert(n == (n / 10) * 10 + n % 10);
    } else {
        assert(decimal_digits(n).drop_last() =~= Seq::<u8>::empty());
        assert(decimal_digits(n).last() - 48 == n);
        assert(digits_value(Seq::<u8>::empty()) == 0);
    }
}

/// What `leading_u64` reads from the decimal form of a 64-bit number.
pub proof fn lemma_leading_u64_of_decimal(n: u64)
    ensures
        leading_u64(decimal_digits(n as nat)) == Some(n),
        decimal_of(decimal_digits(n as nat)) == Some(n),
{
    let d = decimal_digits(n as nat);
    lemma_decimal_digits(n as nat);
    assert(is_digit(d[0]));
    assert(sign_len(d) == 0);
    lemma_digit_run_all(d, 0);
    assert(d.subrange(0, d.len() as int) =~= d);
}

/// Reads a port number: an optional `+`, then digits only.
pub fn parse_u16(t: &[u8]) -> (r: Option<u16>)
    ensures
        r == u16_of(t@),
{
    let start: usize = if t.len() > 0 && t[0] == 43u8 {
        1
    } else {
        0
    };
    let ghost d = if t@.len() > 0 && t@[0] == 43u8 {
        t@.drop_first()
    } else {
        t@
    };
    assert(d =~= t@.subrange(start as int, t@.len() as int));
    if start == t.len() {
        return None;
    }
    let mut v: u32 = 0;
    let mut i: usize = start;
    while i < t.len()
        invariant
            start <= i <= t.len(),
            d == t@.subrange(start as int, t@.len() as int),
            d == (if t@.len() > 0 && t@[0] == 43u8 {
                t@.drop_first()
            } else {
                t@
            }),
            v == digits_value(d.subrange(0, i - start)),
            v <= u16::MAX,
            forall|j: int| 0 <= j < i - start ==> is_digit(#[trigger] d[j]),
        decreases t.len() - i,
    {
        let b = t[i];
        if b < 48u8 || b > 57u8 {
            assert(d[i - start] == b);
            assert(!is_digit(d[i - start]));
            assert(!all_digits(d));
            return None;
        }
        assert(d.subrange(0, i + 1 - start).drop_last() =~= d.subrange(0, i - start));
        v = v * 10 + (b - 48u8) as u32;
        i = i + 1;
        if v > 65535 {
            proof {
                lemma_digits_value_prefix(d, i - start);
                assert(digits_value(d) > u16::MAX);
            }
            return None;
        }
    }
    assert(d.subrange(0, i - start) =~= d);
    Some(v as u16)
}

} // verus!

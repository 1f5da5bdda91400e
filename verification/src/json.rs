//! The wire codec.
//!
//! Every value that crosses the boundary travels as one buffer: the payload's
//! length in ASCII decimal digits, then the payload itself. The payload opens
//! with the marker byte `{`, which is also what ends the length. A buffer
//! whose first byte is the not-ready sentinel carries no value yet.

use vstd::prelude::*;
use vstd::slice::*;

use crate::text::{find, lemma_find, lemma_find_is};

verus! {

/// First byte of a buffer that carries no value yet.
pub const NOT_READY: u8 = 0;

/// The byte that ends the length and opens the payload (`{`).
pub const MARKER: u8 = 123;

/// Why a buffer could not be framed.
#[derive(Debug, Clone, Copy, PartialEq, Eq, Structural)]
pub enum WireError {
    /// No marker byte anywhere in the buffer.
    MissingMarker,
    /// The marker is the first byte: there is no length before it.
    EmptyLength,
    /// A byte before the marker is not an ASCII decimal digit.
    NonNumeric,
    /// The length does not fit in `usize`.
    LengthOverflow,
    /// The buffer ends before the declared length does.
    Truncated,
}

/// Why a framed value could not be handed out.
#[derive(Debug, PartialEq, Eq)]
pub enum DecodeError<E> {
    /// The buffer itself is malformed.
    Frame(WireError),
    /// The payload was framed, and the decoder refused it.
    Payload(E),
}

pub open spec fn is_digit(b: u8) -> bool {
    48 <= b <= 57
}

pub open spec fn all_digits(s: Seq<u8>) -> bool {
    forall|i: int| 0 <= i < s.len() ==> is_digit(#[trigger] s[i])
}

/// The number that a string of decimal digits writes, most significant first.
pub open spec fn decimal_value(s: Seq<u8>) -> nat
    decreases s.len(),
{
    if s.len() == 0 {
        0
    } else {
        10 * decimal_value(s.drop_last()) + (s.last() - 48) as nat
    }
}

/// The decimal digits of `n`, most significant first, without leading zeros.
pub open spec fn decimal_digits(n: nat) -> Seq<u8>
    decreases n,
{
    if n < 10 {
        seq![(48 + n) as u8]
    } else {
        decimal_digits(n / 10).push((48 + n % 10) as u8)
    }
}

/// How many bytes stand before the first marker; the whole length where
/// there is no marker.
pub open spec fn marker_offset(buf: Seq<u8>) -> nat {
    find(buf, MARKER)
}

/// What a buffer frames: the payload's length and the offset at which the
/// payload starts. `(0, 0)` stands for "no value yet".
pub open spec fn frame(buf: Seq<u8>) -> Result<(usize, usize), WireError> {
    let m = marker_offset(buf);
    let digits = buf.take(m as int);
    if buf.len() > 0 && buf[0] == NOT_READY {
        Ok((0, 0))
    } else if m == buf.len() {
        Err(WireError::MissingMarker)
    } else if m == 0 {
        Err(WireError::EmptyLength)
    } else if !all_digits(digits) {
        Err(WireError::NonNumeric)
    } else if decimal_value(digits) > usize::MAX {
        Err(WireError::LengthOverflow)
    } else {
        Ok((decimal_value(digits) as usize, m as usize))
    }
}

/// The payload bytes that a buffer carries: `None` while there is no value.
pub open spec fn payload(buf: Seq<u8>) -> Result<Option<Seq<u8>>, WireError> {
    match frame(buf) {
        Err(e) => Err(e),
        Ok((len, off)) => if len == 0 {
            Ok(None)
        } else if off + len > buf.len() {
            Err(WireError::Truncated)
        } else {
            Ok(Some(buf.subrange(off as int, off + len)))
        },
    }
}

/// A payload that can be framed: it opens with the marker.
pub open spec fn valid_payload(p: Seq<u8>) -> bool {
    p.len() > 0 && p[0] == MARKER
}

/// The buffer that carries `p`.
pub open spec fn encoded(p: Seq<u8>) -> Seq<u8> {
    decimal_digits(p.len()) + p
}

/// A longer string of digits writes no smaller a number than its prefix.
pub proof fn lemma_decimal_value_prefix(s: Seq<u8>, k: int)
    requires
        0 <= k <= s.len(),
        all_digits(s),
    ensures
        decimal_value(s.take(k)) <= decimal_value(s),
    decreases s.len() - k,
{
    if k == s.len() {
        assert(s.take(k) =~= s);
    } else {
        let t = s.drop_last();
        assert(is_digit(s.last()));
        assert(all_digits(t)) by {
            assert forall|i: int| 0 <= i < t.len() implies is_digit(#[trigger] t[i]) by {
                assert(t[i] == s[i]);
            }
        }
        lemma_decimal_value_prefix(t, k);
        assert(t.take(k) =~= s.take(k));
    }
}

/// The digits of a number are digits, and write that number.
pub proof fn lemma_decimal_digits(n: nat)
    ensures
        decimal_digits(n).len() >= 1,
        all_digits(decimal_digits(n)),
        decimal_value(decimal_digits(n)) == n,
    decreases n,
{
    let d = decimal_digits(n);
    if n < 10 {
        assert(d.drop_last() =~= Seq::<u8>::empty());
        assert(decimal_value(d.drop_last()) == 0);
    } else {
        lemma_decimal_digits(n / 10);
        let head = decimal_digits(n / 10);
        assert(d.drop_last() =~= head);
        assert(d.last() == (48 + n % 10) as u8);
        assert forall|i: int| 0 <= i < d.len() implies is_digit(#[trigger] d[i]) by {
            if i < head.len() {
                assert(d[i] == head[i]);
            }
        }
    }
}

/// A number has no more digits than its value, but for zero.
pub proof fn lemma_decimal_digits_len(n: nat)
    requires
        n >= 1,
    ensures
        decimal_digits(n).len() <= n,
    decreases n,
{
    if n >= 10 {
        lemma_decimal_digits_len(n / 10);
    }
}

/// Framing what was encoded gives back the payload's length, the offset at
/// which the payload starts (the number of digits before it), and, between
/// them, the payload.
pub proof fn lemma_round_trip(p: Seq<u8>)
    requires
        valid_payload(p),
        p.len() <= usize::MAX,
    ensures
        frame(encoded(p)) == Ok::<(usize, usize), WireError>(
            (p.len() as usize, decimal_digits(p.len()).len() as usize),
        ),
        payload(encoded(p)) == Ok::<Option<Seq<u8>>, WireError>(Some(p)),
{
    let d = decimal_digits(p.len());
    let buf = encoded(p);
    lemma_decimal_digits(p.len());
    lemma_decimal_digits_len(p.len());
    assert forall|j: int| 0 <= j < d.len() implies buf[j] != MARKER by {
        assert(buf[j] == d[j]);
        assert(is_digit(d[j]));
    }
    assert(buf[d.len() as int] == p[0]);
    lemma_find_is(buf, MARKER, d.len() as int);
    assert(buf.take(d.len() as int) =~= d);
    assert(buf[0] == d[0]);
    assert(is_digit(d[0]));
    assert(buf.subrange(d.len() as int, (d.len() + p.len()) as int) =~= p);
}

/// A buffer whose first byte is the sentinel frames no value, whatever
/// follows that byte.
pub proof fn lemma_sentinel_first(rest: Seq<u8>)
    ensures
        frame(seq![NOT_READY] + rest) == Ok::<(usize, usize), WireError>((0, 0)),
        payload(seq![NOT_READY] + rest) == Ok::<Option<Seq<u8>>, WireError>(None),
{
    let buf = seq![NOT_READY] + rest;
    assert(buf[0] == NOT_READY);
}

/// Reads the length and finds where the payload starts.
///
/// Returns `(length, offset)`; `(0, 0)` where the first byte is the sentinel.
/// Only the bytes up to the marker are looked at.
pub fn read_json_buffer(buf: &[u8]) -> (r: Result<(usize, usize), WireError>)
    ensures
        r == frame(buf@),
        buf@.len() > 0 && buf@[0] == NOT_READY ==> r == Ok::<(usize, usize), WireError>((0, 0)),
{
    if buf.len() > 0 && buf[0] == NOT_READY {
        return Ok((0, 0));
    }
    let mut m: usize = 0;
    let mut numeric = true;
    while m < buf.len() && buf[m] != MARKER
        invariant
            m <= buf.len(),
            forall|j: int| 0 <= j < m ==> buf@[j] != MARKER,
            numeric == all_digits(buf@.take(m as int)),
        decreases buf.len() - m,
    {
        let b = buf[m];
        proof {
            let before = buf@.take(m as int);
            let after = buf@.take(m + 1);
            assert(after.drop_last() =~= before);
            if is_digit(b) && numeric {
                assert forall|i: int| 0 <= i < after.len() implies is_digit(#[trigger] after[i]) by {
                    if i < m {
                        assert(after[i] == before[i]);
                    }
                }
            } else if !is_digit(b) {
                assert(after[m as int] == b);
            } else {
                let i = choose|i: int| 0 <= i < before.len() && !is_digit(#[trigger] before[i]);
                assert(after[i] == before[i]);
            }
        }
        if b < 48 || b > 57 {
            numeric = false;
        }
        m += 1;
    }
    proof {
        lemma_find_is(buf@, MARKER, m as int);
    }
    if m == buf.len() {
        return Err(WireError::MissingMarker);
    }
    if m == 0 {
        return Err(WireError::EmptyLength);
    }
    if !numeric {
        return Err(WireError::NonNumeric);
    }
    let ghost digits = buf@.take(m as int);
    let mut value: usize = 0;
    let mut i: usize = 0;
    while i < m
        invariant
            i <= m < buf.len(),
            0 < m == marker_offset(buf@),
            buf@[0] != NOT_READY,
            digits == buf@.take(m as int),
            all_digits(digits),
            value == decimal_value(digits.take(i as int)),
        decreases m - i,
    {
        proof {
            let next = digits.take(i + 1);
            assert(is_digit(digits[i as int]));
            assert(next.drop_last() =~= digits.take(i as int));
            assert(next.last() == buf@[i as int]);
            assert(decimal_value(next) == 10 * value + (buf@[i as int] - 48));
            lemma_decimal_value_prefix(digits, i + 1);
        }
        let d: usize = (buf[i] - 48) as usize;
        let scaled = match value.checked_mul(10) {
            Some(v) => v,
            None => {
                return Err(WireError::LengthOverflow);
            },
        };
        value = match scaled.checked_add(d) {
            Some(v) => v,
            None => {
                return Err(WireError::LengthOverflow);
            },
        };
        i += 1;
    }
    proof {
        assert(digits.take(m as int) =~= digits);
    }
    Ok((value, m))
}

/// Frames the buffer and hands the payload to `decode`.
///
/// `Ok(None)` while the buffer carries no value: its first byte is the
/// sentinel, or its length is zero. Otherwise `decode` gets exactly the
/// payload's bytes, never one past the declared length, and its answer is
/// handed on.
pub fn deserialize_json_buffer<T, E, D: FnOnce(&[u8]) -> Result<T, E>>(buf: &[u8], decode: D) -> (r:
    Result<Option<T>, DecodeError<E>>)
    requires
        forall|bytes: &[u8]| call_requires(decode, (bytes,)),
    ensures
        deserialized(buf@, decode, r),
        buf@.len() > 0 && buf@[0] == NOT_READY ==> r == Ok::<Option<T>, DecodeError<E>>(None),
{
    match read_json_buffer(buf) {
        Err(e) => Err(DecodeError::Frame(e)),
        Ok((len, off)) => {
            proof {
                lemma_find(buf@, MARKER);
            }
            if len == 0 {
                Ok(None)
            } else if len > buf.len() - off {
                Err(DecodeError::Frame(WireError::Truncated))
            } else {
                let bytes = slice_subrange(buf, off, off + len);
                match decode(bytes) {
                    Ok(value) => Ok(Some(value)),
                    Err(e) => Err(DecodeError::Payload(e)),
                }
            }
        },
    }
}

/// What `deserialize_json_buffer` returns for a buffer and a decoder.
pub open spec fn deserialized<T, E, D: FnOnce(&[u8]) -> Result<T, E>>(
    buf: Seq<u8>,
    decode: D,
    r: Result<Option<T>, DecodeError<E>>,
) -> bool {
    match payload(buf) {
        Err(e) => r == Err::<Option<T>, DecodeError<E>>(DecodeError::Frame(e)),
        Ok(None) => r == Ok::<Option<T>, DecodeError<E>>(None),
        Ok(Some(p)) => exists|bytes: &[u8], decoded: Result<T, E>|
            bytes@ == p && call_ensures(decode, (bytes,), decoded) && r == lifted(decoded),
    }
}

/// A decoder's answer as the codec hands it on.
pub open spec fn lifted<T, E>(decoded: Result<T, E>) -> Result<Option<T>, DecodeError<E>> {
    match decoded {
        Ok(v) => Ok(Some(v)),
        Err(e) => Err(DecodeError::Payload(e)),
    }
}

/// Writes the buffer that carries `p`: the length in decimal, then `p`.
///
/// `None` where `p` is no valid payload (it is empty or does not open with
/// the marker), or where the buffer would be longer than `usize::MAX`.
pub fn write_json_buffer(p: &[u8]) -> (r: Option<Vec<u8>>)
    ensures
        match r {
            Some(buf) => valid_payload(p@) && buf@ == encoded(p@),
            None => !valid_payload(p@) || decimal_digits(p@.len()).len() + p@.len() > usize::MAX,
        },
{
    if p.len() == 0 || p[0] != MARKER {
        return None;
    }
    let mut rev: Vec<u8> = Vec::new();
    let mut n: usize = p.len();
    while n >= 10
        invariant
            decimal_digits(p@.len()) == decimal_digits(n as nat) + rev@.reverse(),
        decreases n,
    {
        let ghost before = rev@;
        rev.push(48 + (n % 10) as u8);
        proof {
            let low = (48 + n % 10) as u8;
            assert(rev@.reverse() =~= seq![low] + before.reverse());
            assert(decimal_digits(n as nat) =~= decimal_digits((n / 10) as nat) + seq![low]);
        }
        n = n / 10;
    }
    let ghost before = rev@;
    rev.push(48 + n as u8);
    proof {
        assert(rev@.reverse() =~= decimal_digits(n as nat) + before.reverse());
    }
    let digits = rev.len();
    if digits > usize::MAX - p.len() {
        return None;
    }
    let mut out: Vec<u8> = Vec::new();
    let mut i: usize = digits;
    while i > 0
        invariant
            i <= digits,
            digits == rev@.len(),
            out@ == rev@.reverse().take(digits - i),
        decreases i,
    {
        i -= 1;
        out.push(rev[i]);
        proof {
            let r = rev@.reverse();
            assert(r.take(digits - i) =~= r.take(digits - i - 1).push(r[digits - i - 1]));
        }
    }
    proof {
        assert(rev@.reverse().take(digits as int) =~= rev@.reverse());
    }
    let mut j: usize = 0;
    while j < p.len()
        invariant
            j <= p.len(),
            out@ == decimal_digits(p@.len()) + p@.take(j as int),
        decreases p.len() - j,
    {
        out.push(p[j]);
        proof {
            assert(p@.take(j + 1) =~= p@.take(j as int).push(p@[j as int]));
        }
        j += 1;
    }
    proof {
        assert(p@.take(p.len() as int) =~= p@);
    }
    Some(out)
}

} // verus!

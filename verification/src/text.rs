//! Byte strings: the text the scanner reads, the names the machine interns
//! and the messages it reports are all sequences of bytes.

use vstd::prelude::*;
use vstd::string::StringSliceAdditionalSpecFns;

verus! {

/// Whether two byte strings hold the same bytes.
pub fn bytes_eq(a: &Vec<u8>, b: &Vec<u8>) -> (same: bool)
    ensures
        same == (a@ == b@),
{
    if a.len() != b.len() {
        return false;
    }
    let mut i: usize = 0;
    while i < a.len()
        invariant
            i <= a.len(),
            a.len() == b.len(),
            a@.subrange(0, i as int) == b@.subrange(0, i as int),
        decreases a.len() - i,
    {
        if a[i] != b[i] {
            assert(a@[i as int] != b@[i as int]);
            return false;
        }
        assert(a@.subrange(0, i + 1) == a@.subrange(0, i as int).push(a@[i as int]));
        assert(b@.subrange(0, i + 1) == b@.subrange(0, i as int).push(b@[i as int]));
        i += 1;
    }
    assert(a@ == a@.subrange(0, a.len() as int));
    assert(b@ == b@.subrange(0, b.len() as int));
    true
}

/// Appends the bytes of `tail` to `out`.
pub fn append_bytes(out: &mut Vec<u8>, tail: &Vec<u8>)
    ensures
        final(out)@ == old(out)@ + tail@,
{
    out.extend_from_slice(tail.as_slice());
}

/// Appends the UTF-8 bytes of `tail` to `out`.
pub fn append_str(out: &mut Vec<u8>, tail: &str)
    ensures
        final(out)@ == old(out)@ + tail.spec_bytes(),
{
    out.extend_from_slice(tail.as_bytes());
}

/// The UTF-8 bytes of `text`, owned.
pub fn bytes_of(text: &str) -> (bytes: Vec<u8>)
    ensures
        bytes@ == text.spec_bytes(),
{
    let mut bytes: Vec<u8> = Vec::new();
    append_str(&mut bytes, text);
    assert(Seq::<u8>::empty() + text.spec_bytes() == text.spec_bytes());
    bytes
}

/// The decimal digits of `n`, most significant first, as a sequence of
/// ASCII bytes.
pub open spec fn decimal_digits(n: nat) -> Seq<u8>
    decreases n,
{
    if n < 10 {
        seq![(48 + n) as u8]
    } else {
        decimal_digits(n / 10).push((48 + n % 10) as u8)
    }
}

/// Appends `n` in decimal to `out`.
pub fn append_decimal(out: &mut Vec<u8>, n: usize)
    ensures
        final(out)@ == old(out)@ + decimal_digits(n as nat),
    decreases n,
{
    if n < 10 {
        let digit: u8 = 48 + (n as u8);
        out.push(digit);
        assert(old(out)@.push(digit) == old(out)@ + seq![digit]);
    } else {
        append_decimal(out, n / 10);
        let digit: u8 = 48 + ((n % 10) as u8);
        out.push(digit);
        assert((old(out)@ + decimal_digits((n / 10) as nat)).push(digit) == old(out)@
            + decimal_digits((n / 10) as nat).push(digit));
    }
}

/// A copy of the bytes of `source` from `start` up to `end`.
pub fn copy_range(source: &Vec<u8>, start: usize, end: usize) -> (bytes: Vec<u8>)
    requires
        start <= end <= source@.len(),
    ensures
        bytes@ == source@.subrange(start as int, end as int),
{
    let mut bytes: Vec<u8> = Vec::new();
    let mut i: usize = start;
    while i < end
        invariant
            start <= i <= end <= source@.len(),
            bytes@ == source@.subrange(start as int, i as int),
        decreases end - i,
    {
        bytes.push(source[i]);
        assert(source@.subrange(start as int, i + 1) =~= source@.subrange(
            start as int,
            i as int,
        ).push(source@[i as int]));
        i += 1;
    }
    bytes
}

} // verus!

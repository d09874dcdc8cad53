//! Small byte-sequence helpers shared by the parsing and formatting modules.
use vstd::prelude::*;

verus! {

/// ASCII whitespace as the markup scanner understands it.
pub open spec fn is_ws(b: u8) -> bool {
    b == 0x20 || b == 0x09 || b == 0x0a || b == 0x0d
}

pub fn ws_byte(b: u8) -> (r: bool)
    ensures
        r == is_ws(b),
{
    b == 0x20 || b == 0x09 || b == 0x0a || b == 0x0d
}

pub open spec fn is_digit(b: u8) -> bool {
    0x30 <= b <= 0x39
}

pub fn digit_byte(b: u8) -> (r: bool)
    ensures
        r == is_digit(b),
{
    0x30 <= b && b <= 0x39
}

/// True when `a` and `b` hold the same bytes.
pub fn bytes_eq(a: &[u8], b: &[u8]) -> (r: bool)
    ensures
        r == (a@ == b@),
{
    if a.len() != b.len() {
        assert(a@.len() != b@.len());
        return false;
    }
    let mut i: usize = 0;
    while i < a.len()
        invariant
            0 <= i <= a@.len(),
            a@.len() == b@.len(),
            forall|j: int| 0 <= j < i ==> a@[j] == b@[j],
        decreases a@.len() - i,
    {
        if a[i] != b[i] {
            return false;
        }
        i = i + 1;
    }
    assert(a@ =~= b@);
    true
}

/// True when `a` begins with `p`.
pub fn bytes_starts_with(a: &[u8], p: &[u8]) -> (r: bool)
    ensures
        r == (p@.len() <= a@.len() && a@.subrange(0, p@.len() as int) == p@),
{
    if a.len() < p.len() {
        return false;
    }
    let mut i: usize = 0;
    while i < p.len()
        invariant
            0 <= i <= p@.len(),
            p@.len() <= a@.len(),
            forall|j: int| 0 <= j < i ==> a@[j] == p@[j],
        decreases p@.len() - i,
    {
        if a[i] != p[i] {
            assert(a@.subrange(0, p@.len() as int) != p@) by {
                assert(a@.subrange(0, p@.len() as int)[i as int] == a@[i as int]);
            }
            return false;
        }
        i = i + 1;
    }
    assert(a@.subrange(0, p@.len() as int) =~= p@);
    true
}

/// Appends `src[from..to]` to `out`.
pub fn push_range(out: &mut Vec<u8>, src: &[u8], from: usize, to: usize)
    requires
        from <= to <= src@.len(),
    ensures
        final(out)@ == old(out)@ + src@.subrange(from as int, to as int),
{
    let mut i: usize = from;
    while i < to
        invariant
            from <= i <= to <= src@.len(),
            out@ == old(out)@ + src@.subrange(from as int, i as int),
        decreases to - i,
    {
        out.push(src[i]);
        assert(old(out)@ + src@.subrange(from as int, (i + 1) as int) =~= (old(out)@
            + src@.subrange(from as int, i as int)).push(src@[i as int]));
        i = i + 1;
    }
}

/// Appends the whole of `src` to `out`.
pub fn push_all(out: &mut Vec<u8>, src: &[u8])
    ensures
        final(out)@ == old(out)@ + src@,
{
    assert(src@.subrange(0, src@.len() as int) =~= src@);
    push_range(out, src, 0, src.len());
}

/// The decimal digits of `n`, most significant first.
pub open spec fn dec_digits(n: nat) -> Seq<u8>
    decreases n,
{
    if n < 10 {
        seq![(0x30 + n) as u8]
    } else {
        dec_digits(n / 10) + seq![(0x30 + n % 10) as u8]
    }
}

/// Appends the decimal form of `n` to `out`.
pub fn push_u64(out: &mut Vec<u8>, n: u64)
    ensures
        final(out)@ == old(out)@ + dec_digits(n as nat),
    decreases n,
{
    if n < 10 {
        out.push((0x30 + n) as u8);
        assert(old(out)@ + dec_digits(n as nat) =~= old(out)@.push((0x30 + n) as u8));
    } else {
        push_u64(out, n / 10);
        out.push((0x30 + n % 10) as u8);
        assert(old(out)@ + dec_digits(n as nat) =~= (old(out)@ + dec_digits((n / 10) as nat)).push(
            (0x30 + n % 10) as u8,
        ));
    }
}

/// The decimal form of `v`, with a leading minus sign when negative.
pub open spec fn dec_int(v: int) -> Seq<u8> {
    if v < 0 {
        seq![0x2du8] + dec_digits((-v) as nat)
    } else {
        dec_digits(v as nat)
    }
}

/// Appends the decimal form of `v`, sign included, to `out`.
pub fn push_i64(out: &mut Vec<u8>, v: i64)
    requires
        v > i64::MIN,
    ensures
        final(out)@ == old(out)@ + dec_int(v as int),
{
    if v < 0 {
        out.push(0x2d);
        let m: u64 = (-v) as u64;
        push_u64(out, m);
        assert(old(out)@ + dec_int(v as int) =~= (old(out)@.push(0x2du8)) + dec_digits(
            (-(v as int)) as nat,
        ));
    } else {
        push_u64(out, v as u64);
    }
}

/// Two decimal digits, zero padded: the form `{:02}` gives a number below 100.
pub open spec fn dec_pad2(n: nat) -> Seq<u8> {
    if n < 10 {
        seq![0x30u8] + dec_digits(n)
    } else {
        dec_digits(n)
    }
}

/// Appends `n` as at least two digits, zero padded.
pub fn push_pad2(out: &mut Vec<u8>, n: u64)
    ensures
        final(out)@ == old(out)@ + dec_pad2(n as nat),
{
    if n < 10 {
        out.push(0x30);
        push_u64(out, n);
        assert(old(out)@ + dec_pad2(n as nat) =~= (old(out)@.push(0x30u8)) + dec_digits(n as nat));
    } else {
        push_u64(out, n);
    }
}

/// Appends the decimal form of `n` to `out`.
pub fn push_u128(out: &mut Vec<u8>, n: u128)
    ensures
        final(out)@ == old(out)@ + dec_digits(n as nat),
    decreases n,
{
    if n < 10 {
        out.push((0x30 + n) as u8);
        assert(old(out)@ + dec_digits(n as nat) =~= old(out)@.push((0x30 + n) as u8));
    } else {
        push_u128(out, n / 10);
        out.push((0x30 + n % 10) as u8);
        assert(old(out)@ + dec_digits(n as nat) =~= (old(out)@ + dec_digits((n / 10) as nat)).push(
            (0x30 + n % 10) as u8,
        ));
    }
}

} // verus!

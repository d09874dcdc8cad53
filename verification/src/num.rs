//! Exact decimal numbers: parsing of signed decimal literals into
//! micro-units (the value times one million), truncating digits beyond the
//! sixth fractional place.
use vstd::prelude::*;

use crate::bytes::is_digit;

verus! {

pub open spec fn pow10(n: nat) -> int
    decreases n,
{
    if n == 0 {
        1
    } else {
        10 * pow10((n - 1) as nat)
    }
}

pub proof fn lemma_pow10_vals()
    ensures
        pow10(0) == 1,
        pow10(1) == 10,
        pow10(2) == 100,
        pow10(3) == 1000,
        pow10(4) == 10_000,
        pow10(5) == 100_000,
        pow10(6) == 1_000_000,
        pow10(7) == 10_000_000,
{
    reveal_with_fuel(pow10, 9);
}

pub open spec fn all_digits(s: Seq<u8>) -> bool {
    forall|i: int| 0 <= i < s.len() ==> is_digit(#[trigger] s[i])
}

/// The value of a run of decimal digits.
pub open spec fn digits_val(s: Seq<u8>) -> int
    decreases s.len(),
{
    if s.len() == 0 {
        0
    } else {
        digits_val(s.drop_last()) * 10 + (s.last() - 0x30)
    }
}

pub proof fn lemma_digits_val_bound(s: Seq<u8>)
    requires
        all_digits(s),
    ensures
        0 <= digits_val(s) < pow10(s.len()),
    decreases s.len(),
{
    if s.len() > 0 {
        assert(all_digits(s.drop_last())) by {
            assert(forall|i: int| 0 <= i < s.len() - 1 ==> s.drop_last()[i] == s[i]);
        }
        lemma_digits_val_bound(s.drop_last());
    }
}

pub proof fn lemma_pow10_mono(a: nat, b: nat)
    requires
        a <= b,
    ensures
        pow10(a) <= pow10(b),
        pow10(a) >= 1,
    decreases b,
{
    if a < b {
        lemma_pow10_mono(a, (b - 1) as nat);
    } else if a > 0 {
        lemma_pow10_mono((a - 1) as nat, (a - 1) as nat);
    }
}

/// The first index at or after `i` holding `b`, or the length.
pub open spec fn find_byte_from(s: Seq<u8>, i: int, b: u8) -> int
    decreases s.len() - i,
{
    if i < 0 || i >= s.len() {
        s.len() as int
    } else if s[i] == b {
        i
    } else {
        find_byte_from(s, i + 1, b)
    }
}

pub proof fn lemma_find_byte_from(s: Seq<u8>, i: int, b: u8)
    requires
        0 <= i <= s.len(),
    ensures
        i <= find_byte_from(s, i, b) <= s.len(),
        find_byte_from(s, i, b) < s.len() ==> s[find_byte_from(s, i, b)] == b,
        forall|j: int| i <= j < find_byte_from(s, i, b) ==> s[j] != b,
    decreases s.len() - i,
{
    if i < s.len() && s[i] != b {
        lemma_find_byte_from(s, i + 1, b);
    }
}

/// Finds the first occurrence of `b` at or after `from`.
#[verifier::loop_isolation(false)]
pub fn find_byte(s: &[u8], from: usize, b: u8) -> (r: usize)
    requires
        from <= s@.len(),
    ensures
        r == find_byte_from(s@, from as int, b),
        from <= r <= s@.len(),
        r < s@.len() ==> s@[r as int] == b,
{
    proof {
        lemma_find_byte_from(s@, from as int, b);
    }
    let mut i: usize = from;
    while i < s.len()
        invariant
            from <= i <= s@.len(),
            find_byte_from(s@, from as int, b) == find_byte_from(s@, i as int, b),
        decreases s@.len() - i,
    {
        if s[i] == b {
            return i;
        }
        i = i + 1;
    }
    i
}

/// The value of the digit run `s[st..en]`, or nothing when a byte is not a
/// digit.
#[verifier::loop_isolation(false)]
pub fn digit_run_val(s: &[u8], st: usize, en: usize) -> (r: Option<u64>)
    requires
        st <= en <= s@.len(),
        en - st <= 7,
    ensures
        r is Some <==> all_digits(s@.subrange(st as int, en as int)),
        r is Some ==> r->0 == digits_val(s@.subrange(st as int, en as int)) && r->0 <= 9_999_999,
{
    let ghost whole = s@.subrange(st as int, en as int);
    let mut val: u64 = 0;
    let mut j: usize = st;
    while j < en
        invariant
            st <= j <= en <= s@.len(),
            all_digits(s@.subrange(st as int, j as int)),
            val == digits_val(s@.subrange(st as int, j as int)),
            0 <= val < pow10((j - st) as nat),
            j - st <= 7,
        decreases en - j,
    {
        let c = s[j];
        if !(0x30 <= c && c <= 0x39) {
            assert(!all_digits(whole)) by {
                assert(whole[j - st] == c);
            }
            return None;
        }
        proof {
            assert(s@.subrange(st as int, j as int + 1).drop_last() =~= s@.subrange(
                st as int,
                j as int,
            ));
            assert(s@.subrange(st as int, j as int + 1).last() == c);
            lemma_pow10_mono(((j - st) + 1) as nat, 7);
            lemma_pow10_vals();
        }
        val = val * 10 + ((c - 0x30) as u64);
        j = j + 1;
    }
    proof {
        lemma_pow10_mono((en - st) as nat, 7);
        lemma_pow10_vals();
    }
    Some(val)
}

/// The first six fractional digits scaled to micro-units.
pub open spec fn frac6_val(fp: Seq<u8>) -> int {
    if fp.len() >= 6 {
        digits_val(fp.subrange(0, 6))
    } else {
        digits_val(fp) * pow10((6 - fp.len()) as nat)
    }
}

/// A signed decimal literal in micro-units: an optional sign, up to seven
/// integer digits, an optional dot and fraction, at least one digit in all;
/// fractional digits beyond the sixth are dropped.
pub open spec fn spec_parse_micro(s: Seq<u8>) -> Option<int> {
    let sgn: int = if s.len() > 0 && s[0] == 0x2d {
        -1
    } else {
        1
    };
    let b = if s.len() > 0 && (s[0] == 0x2d || s[0] == 0x2b) {
        s.drop_first()
    } else {
        s
    };
    let dot = find_byte_from(b, 0, 0x2e);
    let ip = b.subrange(0, dot);
    let fp = if dot < b.len() {
        b.subrange(dot + 1, b.len() as int)
    } else {
        Seq::empty()
    };
    if all_digits(ip) && all_digits(fp) && ip.len() + fp.len() > 0 && ip.len() <= 7 {
        Some(sgn * (digits_val(ip) * 1_000_000 + frac6_val(fp)))
    } else {
        None
    }
}

/// Magnitude bound of any parsed micro-unit value.
pub const MICRO_ABS_MAX: i64 = 10_000_000_000_000;

pub proof fn lemma_parse_micro_bound(s: Seq<u8>)
    ensures
        spec_parse_micro(s) is Some ==> -MICRO_ABS_MAX <= spec_parse_micro(s)->0
            <= MICRO_ABS_MAX,
{
    if spec_parse_micro(s) is Some {
        let b = if s.len() > 0 && (s[0] == 0x2d || s[0] == 0x2b) {
            s.drop_first()
        } else {
            s
        };
        let dot = find_byte_from(b, 0, 0x2e);
        lemma_find_byte_from(b, 0, 0x2e);
        let ip = b.subrange(0, dot);
        let fp = if dot < b.len() {
            b.subrange(dot + 1, b.len() as int)
        } else {
            Seq::empty()
        };
        lemma_digits_val_bound(ip);
        lemma_pow10_mono(ip.len(), 7);
        lemma_pow10_vals();
        lemma_frac6_bound(fp);
        let v0 = digits_val(ip) * 1_000_000 + frac6_val(fp);
        assert(0 <= v0 < MICRO_ABS_MAX);
        if s.len() > 0 && s[0] == 0x2d {
            assert(spec_parse_micro(s)->0 == -1 * v0);
        } else {
            assert(spec_parse_micro(s)->0 == 1 * v0);
        }
    }
}

pub proof fn lemma_frac6_bound(fp: Seq<u8>)
    requires
        all_digits(fp),
    ensures
        0 <= frac6_val(fp) <= 999_999,
{
    lemma_pow10_vals();
    if fp.len() >= 6 {
        assert(all_digits(fp.subrange(0, 6))) by {
            assert(forall|i: int| 0 <= i < 6 ==> fp.subrange(0, 6)[i] == fp[i]);
        }
        lemma_digits_val_bound(fp.subrange(0, 6));
    } else {
        lemma_digits_val_bound(fp);
        lemma_pow10_mul(fp.len(), (6 - fp.len()) as nat);
        lemma_pow10_mono((6 - fp.len()) as nat, 6);
        assert(digits_val(fp) * pow10((6 - fp.len()) as nat) <= (pow10(fp.len()) - 1) * pow10(
            (6 - fp.len()) as nat,
        )) by (nonlinear_arith)
            requires
                digits_val(fp) <= pow10(fp.len()) - 1,
                pow10((6 - fp.len()) as nat) >= 1,
        ;
        assert((pow10(fp.len()) - 1) * pow10((6 - fp.len()) as nat) == pow10(6) - pow10(
            (6 - fp.len()) as nat,
        )) by (nonlinear_arith)
            requires
                pow10(fp.len()) * pow10((6 - fp.len()) as nat) == pow10(6),
        ;
        assert(digits_val(fp) * pow10((6 - fp.len()) as nat) >= 0) by (nonlinear_arith)
            requires
                digits_val(fp) >= 0,
                pow10((6 - fp.len()) as nat) >= 1,
        ;
    }
}

pub proof fn lemma_pow10_mul(a: nat, b: nat)
    ensures
        pow10(a) * pow10(b) == pow10((a + b) as nat),
    decreases a,
{
    if a > 0 {
        lemma_pow10_mul((a - 1) as nat, b);
        assert(pow10(a) * pow10(b) == 10 * (pow10((a - 1) as nat) * pow10(b)))
            by (nonlinear_arith)
            requires
                pow10(a) == 10 * pow10((a - 1) as nat),
        ;
    }
}

/// Parses a signed decimal literal into micro-units.
#[verifier::rlimit(100)]
#[verifier::spinoff_prover]
#[verifier::loop_isolation(false)]
pub fn parse_micro(s: &[u8]) -> (r: Option<i64>)
    ensures
        match r {
            Some(v) => spec_parse_micro(s@) == Some(v as int) && -MICRO_ABS_MAX <= v
                <= MICRO_ABS_MAX,
            None => spec_parse_micro(s@) is None,
        },
{
    proof {
        lemma_parse_micro_bound(s@);
    }
    let neg: bool = s.len() > 0 && s[0] == 0x2d;
    let st: usize = if s.len() > 0 && (s[0] == 0x2d || s[0] == 0x2b) {
        1
    } else {
        0
    };
    let ghost b = if s@.len() > 0 && (s@[0] == 0x2d || s@[0] == 0x2b) {
        s@.drop_first()
    } else {
        s@
    };
    assert(b =~= s@.subrange(st as int, s@.len() as int));
    let dot: usize = find_byte(s, st, 0x2e);
    let ghost dotb = find_byte_from(b, 0, 0x2e);
    proof {
        lemma_find_byte_from(b, 0, 0x2e);
        lemma_find_byte_from(s@, st as int, 0x2e);
        assert(forall|j: int| 0 <= j < b.len() ==> b[j] == s@[j + st]);
        assert(dotb == dot - st) by {
            if dotb < dot - st {
                assert(b[dotb] == 0x2e);
            }
            if dotb > dot - st && dot < s@.len() {
                assert(b[dot - st] == 0x2e);
            }
        }
        assert(b.subrange(0, dotb) =~= s@.subrange(st as int, dot as int));
    }
    let ghost ip = b.subrange(0, dotb);
    let ghost fp = if dotb < b.len() {
        b.subrange(dotb + 1, b.len() as int)
    } else {
        Seq::<u8>::empty()
    };
    if dot - st > 7 {
        assert(spec_parse_micro(s@) is None);
        return None;
    }
    let ip_len: usize = dot - st;
    let fp_len: usize = if dot < s.len() {
        s.len() - dot - 1
    } else {
        0
    };
    if ip_len == 0 && fp_len == 0 {
        assert(spec_parse_micro(s@) is None);
        return None;
    }
    let ival = match crate::num::digit_run_val(s, st, dot) {
        Some(v) => v,
        None => {
            assert(spec_parse_micro(s@) is None);
            return None;
        },
    };
    let mut fval: u64 = 0;
    if dot < s.len() {
        let fst: usize = dot + 1;
        proof {
            assert(fp =~= s@.subrange(fst as int, s@.len() as int));
        }
        if fp_len >= 6 {
            let fen: usize = fst + 6;
            proof {
                assert(fp.subrange(0, 6) =~= s@.subrange(fst as int, fen as int));
            }
            let fhead = match crate::num::digit_run_val(s, fst, fen) {
                Some(v) => v,
                None => {
                    assert(!all_digits(fp)) by {
                        let bad = choose|i: int| 0 <= i < 6 && !is_digit(fp.subrange(0, 6)[i]);
                        assert(fp[bad] == fp.subrange(0, 6)[bad]);
                    }
                    assert(spec_parse_micro(s@) is None);
                    return None;
                },
            };
            let mut j: usize = fen;
            while j < s.len()
                invariant
                    fen <= j <= s@.len(),
                    fen as int == fst + 6,
                    fst == dot + 1,
                    dot < s@.len(),
                    fp == s@.subrange(fst as int, s@.len() as int),
                    forall|c: int| 6 <= c < j - fst ==> is_digit(#[trigger] fp[c]),
                decreases s@.len() - j,
            {
                let c = s[j];
                if !(0x30 <= c && c <= 0x39) {
                    assert(!all_digits(fp)) by {
                        assert(fp[j - fst] == c);
                    }
                    assert(spec_parse_micro(s@) is None);
                    return None;
                }
                assert(fp[j as int - fst] == c);
                j = j + 1;
            }
            assert(all_digits(fp)) by {
                assert(forall|c: int| 0 <= c < 6 ==> fp[c] == fp.subrange(0, 6)[c]);
            }
            proof {
                lemma_digits_val_bound(fp.subrange(0, 6));
                lemma_pow10_vals();
            }
            fval = fhead;
            assert(fval == frac6_val(fp));
            assert(fval <= 999_999);
        } else {
            let fhead = match crate::num::digit_run_val(s, fst, s.len()) {
                Some(v) => v,
                None => {
                    assert(spec_parse_micro(s@) is None);
                    return None;
                },
            };
            let mut sc: u64 = 1;
            let mut k: usize = fp_len;
            while k < 6
                invariant
                    fp_len <= k <= 6,
                    sc == pow10((k - fp_len) as nat),
                    sc <= 1_000_000,
                decreases 6 - k,
            {
                proof {
                    lemma_pow10_mono(((k - fp_len) + 1) as nat, 6);
                    lemma_pow10_vals();
                }
                sc = sc * 10;
                k = k + 1;
            }
            proof {
                lemma_frac6_bound(fp);
                lemma_digits_val_bound(fp);
                lemma_pow10_mono((6 - fp.len()) as nat, 6);
                lemma_pow10_vals();
                assert(fhead * sc <= 999_999) by (nonlinear_arith)
                    requires
                        0 <= fhead as int == digits_val(fp),
                        sc == pow10((6 - fp.len()) as nat),
                        digits_val(fp) * pow10((6 - fp.len()) as nat) <= 999_999,
                ;
                assert(fhead as int * sc as int == frac6_val(fp));
            }
            fval = fhead * sc;
        }
    } else {
        assert(fp =~= Seq::<u8>::empty());
        assert(fval == frac6_val(fp));
    }
    assert(fval <= 999_999) by {
        lemma_frac6_bound(fp);
    }
    let magnitude: i64 = (ival as i64) * 1_000_000 + (fval as i64);
    let v: i64 = if neg {
        -magnitude
    } else {
        magnitude
    };
    proof {
        let v0 = digits_val(ip) * 1_000_000 + frac6_val(fp);
        assert(all_digits(ip));
        assert(all_digits(fp));
        assert(ip.len() == dot - st);
        assert(dot < s@.len() ==> fp.len() == s@.len() - dot - 1);
        assert(ip.len() + fp.len() > 0);
        assert(ip.len() <= 7);
        assert(spec_parse_micro(s@) is Some);
        assert(ival == digits_val(ip));
        assert(fval == frac6_val(fp));
        assert(magnitude == v0);
        if neg {
            assert(s@[0] == 0x2d);
            assert(spec_parse_micro(s@)->0 == -1 * v0);
            assert(-1 * v0 == -v0) by (nonlinear_arith);
            assert(v == -magnitude);
        } else {
            assert(spec_parse_micro(s@)->0 == 1 * v0);
            assert(1 * v0 == v0) by (nonlinear_arith);
        }
        assert(spec_parse_micro(s@)->0 == v as int);
        assert(spec_parse_micro(s@) == Some(v as int));
    }
    Some(v)
}

} // verus!

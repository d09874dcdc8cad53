//! Formatted statistic values, as the template's text placeholders show
//! them: whole kilometres, speeds with one decimal, whole metres, and
//! zero-padded `HH:MM:SS` durations.
use vstd::prelude::*;

use crate::bytes::dec_digits;
use crate::bytes::dec_int;
use crate::bytes::dec_pad2;
use crate::bytes::push_i64;
use crate::bytes::push_pad2;
use crate::bytes::push_u64;

verus! {

/// Millimetres as whole kilometres, rounded half up, with the unit.
pub open spec fn fmt_km(d_mm: int) -> Seq<u8> {
    dec_digits((((d_mm + 500_000) / 1_000_000)) as nat) + seq![0x6bu8, 0x6du8]
}

/// A speed of `3.6 * d_m / s` km/h with one decimal digit, rounded half
/// up; a zero time gives a zero speed.
pub open spec fn fmt_speed(d_m: int, s: int) -> Seq<u8> {
    let x10 = if s <= 0 {
        0
    } else {
        (72 * d_m + s) / (2 * s)
    };
    dec_digits((x10 / 10) as nat) + seq![0x2eu8] + dec_digits((x10 % 10) as nat) + seq![
        0x6bu8,
        0x6du8,
        0x2fu8,
        0x68u8,
    ]
}

/// Millimetres as whole metres, rounded half away from zero.
pub open spec fn round_away_m(e_mm: int) -> int {
    if e_mm >= 0 {
        (e_mm + 500) / 1000
    } else {
        -((-e_mm + 500) / 1000)
    }
}

/// A signed elevation in whole metres with the unit.
pub open spec fn fmt_m(e_mm: int) -> Seq<u8> {
    dec_int(round_away_m(e_mm)) + seq![0x6du8]
}

/// A duration as zero-padded hours, minutes and seconds.
pub open spec fn fmt_hhmmss(s: int) -> Seq<u8> {
    dec_pad2((s / 3600) as nat) + seq![0x3au8] + dec_pad2(((s / 60) % 60) as nat) + seq![0x3au8]
        + dec_pad2((s % 60) as nat)
}

pub fn fmt_km_b(d_mm: u64) -> (r: Vec<u8>)
    requires
        d_mm <= 1_000_000_000_000_000_000,
    ensures
        r@ == fmt_km(d_mm as int),
{
    let mut out: Vec<u8> = Vec::new();
    push_u64(&mut out, (d_mm + 500_000) / 1_000_000);
    out.push(0x6b);
    out.push(0x6d);
    assert(out@ =~= fmt_km(d_mm as int));
    out
}

pub fn fmt_speed_b(d_m: u64, s: u64) -> (r: Vec<u8>)
    requires
        d_m <= 100_000_000_000_000,
        s <= 1_000_000_000_000_000_000,
    ensures
        r@ == fmt_speed(d_m as int, s as int),
{
    let x10: u64 = if s == 0 {
        0
    } else {
        (72 * d_m + s) / (2 * s)
    };
    let mut out: Vec<u8> = Vec::new();
    push_u64(&mut out, x10 / 10);
    out.push(0x2e);
    push_u64(&mut out, x10 % 10);
    out.push(0x6b);
    out.push(0x6d);
    out.push(0x2f);
    out.push(0x68);
    assert(out@ =~= fmt_speed(d_m as int, s as int));
    out
}

pub fn fmt_m_b(e_mm: i64) -> (r: Vec<u8>)
    requires
        -1_000_000_000_000_000_000 <= e_mm <= 1_000_000_000_000_000_000,
    ensures
        r@ == fmt_m(e_mm as int),
{
    let rounded: i64 = if e_mm >= 0 {
        (e_mm + 500) / 1000
    } else {
        -((-e_mm + 500) / 1000)
    };
    let mut out: Vec<u8> = Vec::new();
    push_i64(&mut out, rounded);
    out.push(0x6d);
    assert(out@ =~= fmt_m(e_mm as int));
    out
}

/// A duration in seconds as zero-padded `HH:MM:SS`.
pub fn get_hhmmss(secs: u64) -> (r: Vec<u8>)
    ensures
        r@ == fmt_hhmmss(secs as int),
{
    let hours: u64 = secs / 3600;
    let minutes: u64 = (secs / 60) % 60;
    let seconds: u64 = secs % 60;
    let mut out: Vec<u8> = Vec::new();
    push_pad2(&mut out, hours);
    out.push(0x3a);
    push_pad2(&mut out, minutes);
    out.push(0x3a);
    push_pad2(&mut out, seconds);
    assert(out@ =~= fmt_hhmmss(secs as int));
    out
}

} // verus!

//! SVG metrics: length tokens with absolute units resolved to pixels at 96
//! px per inch, the root viewBox, and the scale that turns a child
//! element's user-space size into absolute pixels.
//!
//! Pixel quantities are exact rationals over 128-bit integers; every parse
//! keeps numerator and denominator small enough that the products taken
//! here stay in range.
use vstd::prelude::*;

use crate::bytes::is_digit;
use crate::bytes::is_ws;
use crate::num::MICRO_ABS_MAX;
use crate::num::spec_parse_micro;

verus! {

/// Bound of a product from bounds of its factors.
pub proof fn lemma_abs_mul_le(x: int, y: int, xa: int, ya: int)
    requires
        -xa <= x <= xa,
        -ya <= y <= ya,
        0 <= xa,
        0 <= ya,
    ensures
        -(xa * ya) <= x * y <= xa * ya,
{
    assert(-(xa * ya) <= x * y <= xa * ya) by (nonlinear_arith)
        requires
            -xa <= x <= xa,
            -ya <= y <= ya,
            0 <= xa,
            0 <= ya,
    ;
}

/// A product of positives is positive.
pub proof fn lemma_mul_pos(x: int, y: int)
    requires
        0 < x,
        0 < y,
    ensures
        0 < x * y,
{
    assert(0 < x * y) by (nonlinear_arith)
        requires
            0 < x,
            0 < y,
    ;
}

/// An exact rational number of pixels.
pub struct Qty {
    pub num: i128,
    pub den: i128,
}

pub open spec fn qty_wf(q: Qty) -> bool {
    &&& 0 < q.den <= 300_000_000
    &&& -50_000_000_000_000_000 <= q.num <= 50_000_000_000_000_000
}

/// Pixels per unit, as a fraction: none for an unrecognized unit.
pub open spec fn unit_factor(u: Seq<u8>) -> Option<(int, int)> {
    if u.len() == 0 || u == seq![0x70u8, 0x78u8] {
        Some((1, 1))
    } else if u == seq![0x6du8, 0x6du8] {
        Some((480, 127))
    } else if u == seq![0x63u8, 0x6du8] {
        Some((4800, 127))
    } else if u == seq![0x69u8, 0x6eu8] {
        Some((96, 1))
    } else if u == seq![0x70u8, 0x74u8] {
        Some((4, 3))
    } else {
        None
    }
}

/// A byte that can belong to a numeric literal.
pub open spec fn is_num_byte(b: u8) -> bool {
    is_digit(b) || b == 0x2e || b == 0x2b || b == 0x2d
}

/// The first index at or after `i` that cannot belong to a number.
pub open spec fn first_non_num(s: Seq<u8>, i: int) -> int
    decreases s.len() - i,
{
    if i < 0 || i >= s.len() {
        s.len() as int
    } else if is_num_byte(s[i]) {
        first_non_num(s, i + 1)
    } else {
        i
    }
}

/// A length token resolved to pixels: the numeric prefix in micro-units
/// times the unit's pixel fraction, as (numerator, denominator).
pub open spec fn spec_parse_len_px(s: Seq<u8>) -> Option<(int, int)> {
    let sp = first_non_num(s, 0);
    match spec_parse_micro(s.subrange(0, sp)) {
        Some(v) => match unit_factor(s.subrange(sp, s.len() as int)) {
            Some(f) => Some((v * f.0, 1_000_000 * f.1)),
            None => None,
        },
        None => None,
    }
}

#[verifier::loop_isolation(false)]
fn find_non_num(s: &[u8]) -> (r: usize)
    ensures
        r == first_non_num(s@, 0),
        r <= s@.len(),
{
    let mut i: usize = 0;
    while i < s.len()
        invariant
            0 <= i <= s@.len(),
            first_non_num(s@, 0) == first_non_num(s@, i as int),
        decreases s@.len() - i,
    {
        let c = s[i];
        if !((0x30 <= c && c <= 0x39) || c == 0x2e || c == 0x2b || c == 0x2d) {
            return i;
        }
        i = i + 1;
    }
    i
}

/// Parses a length token such as `25.4mm` or `1080` into exact pixels.
pub fn parse_len_px(s: &[u8]) -> (r: Option<Qty>)
    ensures
        match r {
            Some(q) => spec_parse_len_px(s@) == Some((q.num as int, q.den as int)) && qty_wf(q),
            None => spec_parse_len_px(s@) is None,
        },
{
    let sp = find_non_num(s);
    let mut numpart: Vec<u8> = Vec::new();
    crate::bytes::push_range(&mut numpart, s, 0, sp);
    let v: i64 = match crate::num::parse_micro(numpart.as_slice()) {
        Some(v) => v,
        None => {
            return None;
        },
    };
    let mut unit: Vec<u8> = Vec::new();
    crate::bytes::push_range(&mut unit, s, sp, s.len());
    let f: (i64, i64) = if unit.len() == 0 {
        (1, 1)
    } else if pair_eq(&unit, 0x70, 0x78) {
        (1, 1)
    } else if pair_eq(&unit, 0x6d, 0x6d) {
        (480, 127)
    } else if pair_eq(&unit, 0x63, 0x6d) {
        (4800, 127)
    } else if pair_eq(&unit, 0x69, 0x6e) {
        (96, 1)
    } else if pair_eq(&unit, 0x70, 0x74) {
        (4, 3)
    } else {
        assert(unit_factor(unit@) is None);
        return None;
    };
    assert(unit_factor(unit@) == Some((f.0 as int, f.1 as int)));
    assert(1 <= f.0 <= 4800 && 1 <= f.1 <= 127);
    proof {
        lemma_abs_mul_le(v as int, f.0 as int, MICRO_ABS_MAX as int, 4800);
    }
    let q = Qty { num: (v as i128) * (f.0 as i128), den: 1_000_000 * (f.1 as i128) };
    Some(q)
}

/// Whether `u` is exactly the two bytes `a`, `b`.
fn pair_eq(u: &Vec<u8>, a: u8, b: u8) -> (r: bool)
    ensures
        r == (u@ == seq![a, b]),
{
    if u.len() == 2 && u[0] == a && u[1] == b {
        assert(u@ =~= seq![a, b]);
        true
    } else {
        proof {
            if u@ == seq![a, b] {
                assert(u@.len() == 2);
                assert(u@[0] == a && u@[1] == b);
            }
        }
        false
    }
}

/// A separator inside a viewBox value.
pub open spec fn is_sep(b: u8) -> bool {
    is_ws(b) || b == 0x2c
}

pub open spec fn skip_seps(s: Seq<u8>, i: int) -> int
    decreases s.len() - i,
{
    if i < 0 || i >= s.len() {
        s.len() as int
    } else if is_sep(s[i]) {
        skip_seps(s, i + 1)
    } else {
        i
    }
}

pub open spec fn tok_end(s: Seq<u8>, i: int) -> int
    decreases s.len() - i,
{
    if i < 0 || i >= s.len() {
        s.len() as int
    } else if is_sep(s[i]) {
        i
    } else {
        tok_end(s, i + 1)
    }
}

#[verifier::loop_isolation(false)]
fn skip_seps_x(s: &[u8], from: usize) -> (r: usize)
    requires
        from <= s@.len(),
    ensures
        r == skip_seps(s@, from as int),
        from <= r <= s@.len(),
{
    let mut i: usize = from;
    while i < s.len()
        invariant
            from <= i <= s@.len(),
            skip_seps(s@, from as int) == skip_seps(s@, i as int),
        decreases s@.len() - i,
    {
        let c = s[i];
        if !(c == 0x20 || c == 0x09 || c == 0x0a || c == 0x0d || c == 0x2c) {
            return i;
        }
        i = i + 1;
    }
    i
}

#[verifier::loop_isolation(false)]
fn tok_end_x(s: &[u8], from: usize) -> (r: usize)
    requires
        from <= s@.len(),
    ensures
        r == tok_end(s@, from as int),
        from <= r <= s@.len(),
{
    let mut i: usize = from;
    while i < s.len()
        invariant
            from <= i <= s@.len(),
            tok_end(s@, from as int) == tok_end(s@, i as int),
        decreases s@.len() - i,
    {
        let c = s[i];
        if c == 0x20 || c == 0x09 || c == 0x0a || c == 0x0d || c == 0x2c {
            return i;
        }
        i = i + 1;
    }
    i
}

/// A viewBox value: four numbers separated by commas or whitespace,
/// as (min-x, min-y, width, height) in micro-units.
pub open spec fn spec_parse_viewbox(s: Seq<u8>) -> Option<(int, int, int, int)> {
    let a1 = skip_seps(s, 0);
    let e1 = tok_end(s, a1);
    let a2 = skip_seps(s, e1);
    let e2 = tok_end(s, a2);
    let a3 = skip_seps(s, e2);
    let e3 = tok_end(s, a3);
    let a4 = skip_seps(s, e3);
    let e4 = tok_end(s, a4);
    let tail = skip_seps(s, e4);
    if a4 < s.len() && tail == s.len() {
        match (
            spec_parse_micro(s.subrange(a1, e1)),
            spec_parse_micro(s.subrange(a2, e2)),
            spec_parse_micro(s.subrange(a3, e3)),
            spec_parse_micro(s.subrange(a4, e4)),
        ) {
            (Some(x), Some(y), Some(w), Some(h)) => Some((x, y, w, h)),
            _ => None,
        }
    } else {
        None
    }
}

fn parse_micro_range(s: &[u8], from: usize, to: usize) -> (r: Option<i64>)
    requires
        from <= to <= s@.len(),
    ensures
        match r {
            Some(v) => spec_parse_micro(s@.subrange(from as int, to as int)) == Some(v as int)
                && -MICRO_ABS_MAX <= v <= MICRO_ABS_MAX,
            None => spec_parse_micro(s@.subrange(from as int, to as int)) is None,
        },
{
    let mut part: Vec<u8> = Vec::new();
    crate::bytes::push_range(&mut part, s, from, to);
    crate::num::parse_micro(part.as_slice())
}

/// Parses a viewBox value.
pub fn parse_viewbox(s: &[u8]) -> (r: Option<(i64, i64, i64, i64)>)
    ensures
        match r {
            Some(v) => spec_parse_viewbox(s@) == Some(
                (v.0 as int, v.1 as int, v.2 as int, v.3 as int),
            ) && -MICRO_ABS_MAX <= v.0 <= MICRO_ABS_MAX && -MICRO_ABS_MAX <= v.1 <= MICRO_ABS_MAX
                && -MICRO_ABS_MAX <= v.2 <= MICRO_ABS_MAX && -MICRO_ABS_MAX <= v.3
                <= MICRO_ABS_MAX,
            None => spec_parse_viewbox(s@) is None,
        },
{
    let a1 = skip_seps_x(s, 0);
    let e1 = tok_end_x(s, a1);
    let a2 = skip_seps_x(s, e1);
    let e2 = tok_end_x(s, a2);
    let a3 = skip_seps_x(s, e2);
    let e3 = tok_end_x(s, a3);
    let a4 = skip_seps_x(s, e3);
    let e4 = tok_end_x(s, a4);
    let tail = skip_seps_x(s, e4);
    if !(a4 < s.len() && tail == s.len()) {
        return None;
    }
    let x = match parse_micro_range(s, a1, e1) {
        Some(v) => v,
        None => {
            return None;
        },
    };
    let y = match parse_micro_range(s, a2, e2) {
        Some(v) => v,
        None => {
            return None;
        },
    };
    let w = match parse_micro_range(s, a3, e3) {
        Some(v) => v,
        None => {
            return None;
        },
    };
    let h = match parse_micro_range(s, a4, e4) {
        Some(v) => v,
        None => {
            return None;
        },
    };
    Some((x, y, w, h))
}

/// The per-axis scale of a document: user-space units to pixels, as exact
/// rationals.
pub struct SvgMetrics {
    pub sx_num: i128,
    pub sx_den: i128,
    pub sy_num: i128,
    pub sy_den: i128,
}

pub open spec fn metrics_wf(m: SvgMetrics) -> bool {
    &&& 0 < m.sx_num <= 50_000_000_000_000_000_000_000
    &&& 0 < m.sx_den <= 3_000_000_000_000_000_000_000
    &&& 0 < m.sy_num <= 50_000_000_000_000_000_000_000
    &&& 0 < m.sy_den <= 3_000_000_000_000_000_000_000
}

/// The metrics a document declares: positive pixel width and height, and,
/// when a viewBox is present, positive logical width and height; the scale
/// is their ratio, or one to one without a viewBox.
pub open spec fn spec_metrics(w: Seq<u8>, h: Seq<u8>, vb: Option<Seq<u8>>) -> Option<
    (int, int, int, int),
> {
    match (spec_parse_len_px(w), spec_parse_len_px(h)) {
        (Some(wq), Some(hq)) => {
            if wq.0 <= 0 || hq.0 <= 0 {
                None
            } else {
                match vb {
                    None => Some((1, 1, 1, 1)),
                    Some(vbs) => match spec_parse_viewbox(vbs) {
                        Some(v) => if v.2 > 0 && v.3 > 0 {
                            Some((wq.0 * 1_000_000, wq.1 * v.2, hq.0 * 1_000_000, hq.1 * v.3))
                        } else {
                            None
                        },
                        None => None,
                    },
                }
            }
        },
        _ => None,
    }
}

/// Builds the document metrics from the root element's declared width,
/// height and viewBox.
pub fn build_metrics(w: &[u8], h: &[u8], vb: Option<&[u8]>) -> (r: Option<SvgMetrics>)
    ensures
        match r {
            Some(m) => spec_metrics(
                w@,
                h@,
                match vb {
                    Some(v) => Some(v@),
                    None => None,
                },
            ) == Some((m.sx_num as int, m.sx_den as int, m.sy_num as int, m.sy_den as int))
                && metrics_wf(m),
            None => spec_metrics(
                w@,
                h@,
                match vb {
                    Some(v) => Some(v@),
                    None => None,
                },
            ) is None,
        },
{
    let wq = match parse_len_px(w) {
        Some(q) => q,
        None => {
            return None;
        },
    };
    let hq = match parse_len_px(h) {
        Some(q) => q,
        None => {
            return None;
        },
    };
    if wq.num <= 0 || hq.num <= 0 {
        return None;
    }
    match vb {
        None => Some(SvgMetrics { sx_num: 1, sx_den: 1, sy_num: 1, sy_den: 1 }),
        Some(vbs) => {
            match parse_viewbox(vbs) {
                Some(v) => {
                    if v.2 > 0 && v.3 > 0 {
                        proof {
                            lemma_mul_pos(wq.den as int, v.2 as int);
                            lemma_mul_pos(hq.den as int, v.3 as int);
                            lemma_abs_mul_le(
                                wq.den as int,
                                v.2 as int,
                                300_000_000,
                                10_000_000_000_000,
                            );
                            lemma_abs_mul_le(
                                hq.den as int,
                                v.3 as int,
                                300_000_000,
                                10_000_000_000_000,
                            );
                        }
                        Some(
                            SvgMetrics {
                                sx_num: wq.num * 1_000_000,
                                sx_den: wq.den * (v.2 as i128),
                                sy_num: hq.num * 1_000_000,
                                sy_den: hq.den * (v.3 as i128),
                            },
                        )
                    } else {
                        None
                    }
                },
                None => None,
            }
        },
    }
}

/// `a / b` rounded half up, for a non-negative `a` and positive `b`.
pub open spec fn round_div_pos(a: int, b: int) -> int {
    (2 * a + b) / (2 * b)
}

/// The base pixel width used for an image when the document metrics are
/// unavailable: the height then keeps the declared aspect ratio.
pub const IMAGE_BASE_W_PX: u32 = 1000;

/// The absolute pixel size of an image declared `w_micro` by `h_micro`
/// user-space units: scaled through the metrics when they are available,
/// else the fixed base width at the declared aspect ratio. Nothing when a
/// declared size is not positive or a result leaves the pixel range.
pub open spec fn spec_image_px(m: Option<SvgMetrics>, w_micro: int, h_micro: int) -> Option<
    (int, int),
> {
    if w_micro <= 0 || h_micro <= 0 {
        None
    } else {
        match m {
            Some(mm) => {
                let wr = round_div_pos(w_micro * mm.sx_num, 1_000_000 * mm.sx_den);
                let hr = round_div_pos(h_micro * mm.sy_num, 1_000_000 * mm.sy_den);
                if 1 <= wr <= u32::MAX && 1 <= hr <= u32::MAX {
                    Some((wr, hr))
                } else {
                    None
                }
            },
            None => {
                let hr = round_div_pos(1000 * h_micro, w_micro);
                if 1 <= hr <= u32::MAX {
                    Some((IMAGE_BASE_W_PX as int, hr))
                } else {
                    None
                }
            },
        }
    }
}

/// Resolves an image element's declared user-space size to pixels.
pub fn image_pixel_size(m: Option<&SvgMetrics>, w_micro: i64, h_micro: i64) -> (r: Option<
    (u32, u32),
>)
    requires
        -MICRO_ABS_MAX <= w_micro <= MICRO_ABS_MAX,
        -MICRO_ABS_MAX <= h_micro <= MICRO_ABS_MAX,
        match m {
            Some(mm) => metrics_wf(*mm),
            None => true,
        },
    ensures
        ({
            let ms = match m {
                Some(mm) => Some(*mm),
                None => None,
            };
            match r {
                Some(v) => spec_image_px(ms, w_micro as int, h_micro as int) == Some(
                    (v.0 as int, v.1 as int),
                ),
                None => spec_image_px(ms, w_micro as int, h_micro as int) is None,
            }
        }),
{
    if w_micro <= 0 || h_micro <= 0 {
        return None;
    }
    match m {
        Some(mm) => {
            proof {
                lemma_abs_mul_le(
                    w_micro as int,
                    mm.sx_num as int,
                    10_000_000_000_000,
                    50_000_000_000_000_000_000_000,
                );
                lemma_abs_mul_le(
                    h_micro as int,
                    mm.sy_num as int,
                    10_000_000_000_000,
                    50_000_000_000_000_000_000_000,
                );
            }
            let wn: i128 = (w_micro as i128) * mm.sx_num;
            let wd: i128 = 1_000_000 * mm.sx_den;
            let wr: i128 = (2 * wn + wd) / (2 * wd);
            let hn: i128 = (h_micro as i128) * mm.sy_num;
            let hd: i128 = 1_000_000 * mm.sy_den;
            let hr: i128 = (2 * hn + hd) / (2 * hd);
            if 1 <= wr && wr <= 0xffff_ffff && 1 <= hr && hr <= 0xffff_ffff {
                Some((wr as u32, hr as u32))
            } else {
                None
            }
        },
        None => {
            let hn: i128 = 1000 * (h_micro as i128);
            let hr: i128 = (2 * hn + (w_micro as i128)) / (2 * (w_micro as i128));
            if 1 <= hr && hr <= 0xffff_ffff {
                Some((IMAGE_BASE_W_PX, hr as u32))
            } else {
                None
            }
        },
    }
}

/// Whether two pixel quantities denote the same number.
pub fn qty_eq(a: &Qty, b: &Qty) -> (r: bool)
    requires
        qty_wf(*a),
        qty_wf(*b),
    ensures
        r == (a.num * b.den == b.num * a.den),
{
    proof {
        lemma_abs_mul_le(a.num as int, b.den as int, 50_000_000_000_000_000, 300_000_000);
        lemma_abs_mul_le(b.num as int, a.den as int, 50_000_000_000_000_000, 300_000_000);
    }
    a.num * b.den == b.num * a.den
}

/// Whether a pixel quantity equals a whole number of pixels.
pub fn qty_eq_int(a: &Qty, n: i64) -> (r: bool)
    requires
        qty_wf(*a),
        -1_000_000_000 <= n <= 1_000_000_000,
    ensures
        r == (a.num == n * a.den),
{
    proof {
        lemma_abs_mul_le(n as int, a.den as int, 1_000_000_000, 300_000_000);
    }
    a.num == (n as i128) * a.den
}

} // verus!

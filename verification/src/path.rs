//! Path geometry: the descriptor parsed from a template path's initial
//! drawing command, and the synthesized elevation-profile path that
//! replaces it.
use vstd::prelude::*;

use crate::bytes::dec_digits;
use crate::num::MICRO_ABS_MAX;
use crate::num::find_byte_from;
use crate::num::spec_parse_micro;
use crate::track::ElevPoint;
use crate::track::profile_m;

verus! {

/// The descriptor of a template path: its initial move command, kept
/// verbatim, and the drawn extent in user-space units.
pub struct InputPath {
    /// Height of the drawn box in micro-units; negative when drawn upward.
    pub height_micro: i64,
    /// Length of the drawn box in micro-units.
    pub length_micro: i64,
    /// The start-point token, verbatim.
    pub ss: Vec<u8>,
    /// Whether the command was absolute (`M`) rather than relative (`m`).
    pub is_absolute: bool,
}

#[derive(Debug)]
pub enum PathError {
    /// The attribute does not begin with a move command followed by two
    /// coordinate pairs.
    Malformed,
}

/// A coordinate token `x,y`, both parts decimal literals, in micro-units.
pub open spec fn spec_parse_coord(t: Seq<u8>) -> Option<(int, int)> {
    let c = find_byte_from(t, 0, 0x2c);
    if c < t.len() {
        match (spec_parse_micro(t.subrange(0, c)), spec_parse_micro(t.subrange(c + 1, t.len() as int))) {
            (Some(x), Some(y)) => Some((x, y)),
            _ => None,
        }
    } else {
        None
    }
}

/// What descriptor parsing yields: (is_absolute, start token, length,
/// height), the extents as drawn from the start point; an absolute second
/// pair has the start subtracted.
pub open spec fn spec_parse_inputpath(s: Seq<u8>) -> Option<(bool, Seq<u8>, int, int)> {
    let sp1 = find_byte_from(s, 0, 0x20);
    let t0 = s.subrange(0, sp1);
    if (t0 == seq![0x6du8] || t0 == seq![0x4du8]) && sp1 < s.len() {
        let abs = t0 == seq![0x4du8];
        let sp2 = find_byte_from(s, sp1 + 1, 0x20);
        let t1 = s.subrange(sp1 + 1, sp2);
        if sp2 < s.len() {
            let sp3 = find_byte_from(s, sp2 + 1, 0x20);
            let t2 = s.subrange(sp2 + 1, sp3);
            match (spec_parse_coord(t1), spec_parse_coord(t2)) {
                (Some(sc), Some(ec)) => {
                    let length = if abs {
                        ec.0 - sc.0
                    } else {
                        ec.0
                    };
                    let height = if abs {
                        ec.1 - sc.1
                    } else {
                        ec.1
                    };
                    Some((abs, t1, length, height))
                },
                _ => None,
            }
        } else {
            None
        }
    } else {
        None
    }
}

fn parse_coord(s: &[u8], from: usize, to: usize) -> (r: Option<(i64, i64)>)
    requires
        from <= to <= s@.len(),
    ensures
        ({
            let t = s@.subrange(from as int, to as int);
            match r {
                Some(v) => spec_parse_coord(t) == Some((v.0 as int, v.1 as int)) && -MICRO_ABS_MAX
                    <= v.0 <= MICRO_ABS_MAX && -MICRO_ABS_MAX <= v.1 <= MICRO_ABS_MAX,
                None => spec_parse_coord(t) is None,
            }
        }),
{
    let ghost t = s@.subrange(from as int, to as int);
    let mut tok: Vec<u8> = Vec::new();
    crate::bytes::push_range(&mut tok, s, from, to);
    let c = crate::num::find_byte(tok.as_slice(), 0, 0x2c);
    proof {
        crate::num::lemma_find_byte_from(t, 0, 0x2c);
    }
    if c >= tok.len() {
        return None;
    }
    let mut xs: Vec<u8> = Vec::new();
    crate::bytes::push_range(&mut xs, tok.as_slice(), 0, c);
    let mut ys: Vec<u8> = Vec::new();
    crate::bytes::push_range(&mut ys, tok.as_slice(), c + 1, tok.len());
    let x = match crate::num::parse_micro(xs.as_slice()) {
        Some(v) => v,
        None => {
            return None;
        },
    };
    let y = match crate::num::parse_micro(ys.as_slice()) {
        Some(v) => v,
        None => {
            return None;
        },
    };
    Some((x, y))
}

impl InputPath {
    pub open spec fn wf(self) -> bool {
        &&& -2 * MICRO_ABS_MAX <= self.height_micro <= 2 * MICRO_ABS_MAX
        &&& -2 * MICRO_ABS_MAX <= self.length_micro <= 2 * MICRO_ABS_MAX
    }

    /// Parses the initial move command of a path's drawing attribute:
    /// `m` or `M`, a start point, and the coordinate pair that fixes the
    /// drawn length and height.
    pub fn new(path: &[u8]) -> (r: Result<InputPath, PathError>)
        ensures
            match r {
                Ok(p) => spec_parse_inputpath(path@) == Some(
                    (p.is_absolute, p.ss@, p.length_micro as int, p.height_micro as int),
                ) && p.wf(),
                Err(_) => spec_parse_inputpath(path@) is None,
            },
    {
        let sp1 = crate::num::find_byte(path, 0, 0x20);
        let is_m = sp1 == 1 && path[0] == 0x6d;
        let is_big_m = sp1 == 1 && path[0] == 0x4d;
        proof {
            let t0 = path@.subrange(0, sp1 as int);
            if is_m {
                assert(t0 =~= seq![0x6du8]);
            }
            if is_big_m {
                assert(t0 =~= seq![0x4du8]);
            }
            if !(is_m || is_big_m) {
                assert(t0 != seq![0x6du8] && t0 != seq![0x4du8]) by {
                    if t0 == seq![0x6du8] {
                        assert(t0.len() == 1 && t0[0] == 0x6d);
                        assert(path@[0] == 0x6d);
                    }
                    if t0 == seq![0x4du8] {
                        assert(t0.len() == 1 && t0[0] == 0x4d);
                        assert(path@[0] == 0x4d);
                    }
                }
            }
        }
        if !(is_m || is_big_m) || sp1 >= path.len() {
            return Err(PathError::Malformed);
        }
        let sp2 = crate::num::find_byte(path, sp1 + 1, 0x20);
        if sp2 >= path.len() {
            return Err(PathError::Malformed);
        }
        let sp3 = crate::num::find_byte(path, sp2 + 1, 0x20);
        let sc = match parse_coord(path, sp1 + 1, sp2) {
            Some(v) => v,
            None => {
                return Err(PathError::Malformed);
            },
        };
        let ec = match parse_coord(path, sp2 + 1, sp3) {
            Some(v) => v,
            None => {
                return Err(PathError::Malformed);
            },
        };
        let length: i64 = if is_big_m {
            ec.0 - sc.0
        } else {
            ec.0
        };
        let height: i64 = if is_big_m {
            ec.1 - sc.1
        } else {
            ec.1
        };
        let mut ss: Vec<u8> = Vec::new();
        crate::bytes::push_range(&mut ss, path, sp1 + 1, sp2);
        Ok(InputPath { height_micro: height, length_micro: length, ss, is_absolute: is_big_m })
    }
}

/// `a / b` rounded half away from zero, for a positive `b`.
pub open spec fn round_signed(a: int, b: int) -> int {
    if a >= 0 {
        (2 * a + b) / (2 * b)
    } else {
        -((2 * (-a) + b) / (2 * b))
    }
}

/// Divides and rounds half away from zero.
fn round_div(a: i128, b: i128) -> (r: i128)
    requires
        1 <= b <= 100_000_000_000_000_000,
        -5_000_000_000_000_000_000_000_000_000_000 <= a <= 5_000_000_000_000_000_000_000_000_000_000,
    ensures
        r == round_signed(a as int, b as int),
        0 <= a ==> 0 <= r <= a,
        a < 0 ==> a <= r <= 0,
{
    if a >= 0 {
        let r = (2 * a + b) / (2 * b);
        proof {
            assert((2 * a + b) / (2 * b) <= a) by (nonlinear_arith)
                requires
                    0 <= a,
                    1 <= b,
            ;
            assert(0 <= (2 * a + b) / (2 * b)) by (nonlinear_arith)
                requires
                    0 <= a,
                    1 <= b,
            ;
        }
        r
    } else {
        let m = -a;
        let r = (2 * m + b) / (2 * b);
        proof {
            assert((2 * m + b) / (2 * b) <= m) by (nonlinear_arith)
                requires
                    0 <= m,
                    1 <= b,
            ;
            assert(0 <= (2 * m + b) / (2 * b)) by (nonlinear_arith)
                requires
                    0 <= m,
                    1 <= b,
            ;
        }
        -r
    }
}

/// The six fractional digits of a micro-unit remainder, zero padded.
pub open spec fn pad6(fr: int) -> Seq<u8> {
    seq![
        (0x30 + (fr / 100000) % 10) as u8,
        (0x30 + (fr / 10000) % 10) as u8,
        (0x30 + (fr / 1000) % 10) as u8,
        (0x30 + (fr / 100) % 10) as u8,
        (0x30 + (fr / 10) % 10) as u8,
        (0x30 + fr % 10) as u8,
    ]
}

/// `s` without trailing zero digits.
pub open spec fn trim_zeros(s: Seq<u8>) -> Seq<u8>
    decreases s.len(),
{
    if s.len() > 0 && s.last() == 0x30 {
        trim_zeros(s.drop_last())
    } else {
        s
    }
}

/// A micro-unit value as decimal text: the whole part, then a dot and the
/// fraction with trailing zeros removed, the dot left out for a whole
/// number; a minus sign for a negative value.
pub open spec fn micro_dec(v: int) -> Seq<u8> {
    let m = if v < 0 {
        -v
    } else {
        v
    };
    let ip = m / 1_000_000;
    let fr = m % 1_000_000;
    let base = if fr == 0 {
        dec_digits(ip as nat)
    } else {
        dec_digits(ip as nat) + seq![0x2eu8] + trim_zeros(pad6(fr))
    };
    if v < 0 {
        seq![0x2du8] + base
    } else {
        base
    }
}

/// Appends the decimal text of a micro-unit value.
#[verifier::loop_isolation(false)]
fn push_micro(out: &mut Vec<u8>, v: i128)
    requires
        -10_000_000_000_000_000_000_000_000_000_000 <= v
            <= 10_000_000_000_000_000_000_000_000_000_000,
    ensures
        final(out)@ == old(out)@ + micro_dec(v as int),
{
    let m: u128 = if v < 0 {
        out.push(0x2d);
        (-v) as u128
    } else {
        v as u128
    };
    let ip: u128 = m / 1_000_000;
    let fr: u64 = (m % 1_000_000) as u64;
    crate::bytes::push_u128(out, ip);
    if fr != 0 {
        out.push(0x2e);
        let mut tmp: Vec<u8> = Vec::new();
        tmp.push((0x30 + ((fr / 100000) % 10)) as u8);
        tmp.push((0x30 + ((fr / 10000) % 10)) as u8);
        tmp.push((0x30 + ((fr / 1000) % 10)) as u8);
        tmp.push((0x30 + ((fr / 100) % 10)) as u8);
        tmp.push((0x30 + ((fr / 10) % 10)) as u8);
        tmp.push((0x30 + (fr % 10)) as u8);
        assert(tmp@ =~= pad6(fr as int));
        while tmp.len() > 0 && tmp[tmp.len() - 1] == 0x30
            invariant
                trim_zeros(tmp@) == trim_zeros(pad6(fr as int)),
            decreases tmp@.len(),
        {
            let ghost pre = tmp@;
            tmp.pop();
            assert(tmp@ =~= pre.drop_last());
        }
        assert(tmp@ == trim_zeros(pad6(fr as int)));
        crate::bytes::push_all(out, tmp.as_slice());
    }
    assert(final(out)@ =~= old(out)@ + micro_dec(v as int));
}

/// The vertical span the profile is scaled into: the elevation range, with
/// a floor that keeps flat tracks from being exaggerated.
pub open spec fn el_width_of(emin: int, emax: int) -> int {
    if emax - emin > 100_000 {
        emax - emin
    } else {
        100_000
    }
}

/// The horizontal position of a profile sample, scaled so that the full
/// track distance spans the descriptor's length.
pub open spec fn scaled_x(d: int, len_u: int, total: int) -> int {
    round_signed(
        d * len_u,
        if total > 0 {
            total
        } else {
            1
        },
    )
}

/// The vertical position of a profile sample, as its offset from the
/// elevation minimum scaled into the descriptor's height.
pub open spec fn scaled_y(e: int, emin: int, h_u: int, width: int) -> int {
    round_signed((e - emin) * h_u, width)
}

/// The relative line segment drawn for profile sample `i`.
pub open spec fn seg_txt(
    pr: Seq<(int, int)>,
    i: int,
    len_u: int,
    total: int,
    emin: int,
    h_u: int,
    width: int,
) -> Seq<u8> {
    let x = scaled_x(pr[i].0, len_u, total);
    let y = scaled_y(pr[i].1, emin, h_u, width);
    let xp = if i == 0 {
        0
    } else {
        scaled_x(pr[i - 1].0, len_u, total)
    };
    let yp = if i == 0 {
        0
    } else {
        scaled_y(pr[i - 1].1, emin, h_u, width)
    };
    seq![0x6cu8, 0x20u8] + micro_dec(x - xp) + seq![0x20u8] + micro_dec(y - yp)
}

/// The first `k` segments, joined by single spaces.
pub open spec fn segs_join(
    pr: Seq<(int, int)>,
    k: int,
    len_u: int,
    total: int,
    emin: int,
    h_u: int,
    width: int,
) -> Seq<u8>
    decreases k,
{
    if k <= 0 {
        Seq::empty()
    } else if k == 1 {
        seg_txt(pr, 0, len_u, total, emin, h_u, width)
    } else {
        segs_join(pr, k - 1, len_u, total, emin, h_u, width) + seq![0x20u8] + seg_txt(
            pr,
            k - 1,
            len_u,
            total,
            emin,
            h_u,
            width,
        )
    }
}

/// The full replacement drawing attribute: the descriptor's move command
/// and start point, the scaled profile as relative segments, and a closing
/// vertical segment back to the baseline.
pub open spec fn spec_elev_path(
    pr: Seq<(int, int)>,
    total: int,
    emin: int,
    emax: int,
    abs: bool,
    ss: Seq<u8>,
    len_u: int,
    h_u: int,
) -> Seq<u8> {
    let width = el_width_of(emin, emax);
    let n = pr.len() as int;
    let ylast = if n == 0 {
        0
    } else {
        scaled_y(pr[n - 1].1, emin, h_u, width)
    };
    (if abs {
        seq![0x4du8]
    } else {
        seq![0x6du8]
    }) + seq![0x20u8] + ss + seq![0x20u8] + segs_join(pr, n, len_u, total, emin, h_u, width) + seq![
        0x20u8,
        0x6cu8,
        0x20u8,
        0x30u8,
        0x20u8,
    ] + micro_dec(-ylast)
}

/// Builds the joined relative segments of the profile, and hands back the
/// last vertical position.
#[verifier::rlimit(100)]
#[verifier::loop_isolation(false)]
fn build_segments(
    profile: &Vec<ElevPoint>,
    divisor: u64,
    width: i64,
    emin_mm: i64,
    inp: &InputPath,
    ghost_total: Ghost<int>,
) -> (r: (Vec<u8>, i128))
    requires
        inp.wf(),
        1 <= divisor <= 100_000_000_000_000_000,
        100_000 <= width <= 100_000_000_000_000_000,
        -100_000_000 <= emin_mm <= 100_000_000,
        divisor as int == if ghost_total@ > 0 {
            ghost_total@
        } else {
            1
        },
        forall|i: int|
            0 <= i < profile@.len() ==> (#[trigger] profile@[i]).dist_mm
                <= 100_000_000_000_000_000 && -100_000_000 <= profile@[i].elev_mm <= 100_000_000,
    ensures
        r.0@ == segs_join(
            profile_m(profile@),
            profile@.len() as int,
            inp.length_micro as int,
            ghost_total@,
            emin_mm as int,
            inp.height_micro as int,
            width as int,
        ),
        r.1 == if profile@.len() == 0 {
            0int
        } else {
            scaled_y(
                profile_m(profile@)[profile@.len() - 1].1,
                emin_mm as int,
                inp.height_micro as int,
                width as int,
            )
        },
        -5_000_000_000_000_000_000_000_000_000_000 <= r.1
            <= 5_000_000_000_000_000_000_000_000_000_000,
{
    let ghost pr = profile_m(profile@);
    let ghost len_u = inp.length_micro as int;
    let ghost h_u = inp.height_micro as int;
    let ghost total = ghost_total@;
    let mut body: Vec<u8> = Vec::new();
    let mut xp: i128 = 0;
    let mut yp: i128 = 0;
    let mut i: usize = 0;
    while i < profile.len()
        invariant
            0 <= i <= profile@.len(),
            body@ == segs_join(pr, i as int, len_u, total, emin_mm as int, h_u, width as int),
            xp == if i == 0 {
                0int
            } else {
                scaled_x(pr[i - 1].0, len_u, total)
            },
            yp == if i == 0 {
                0int
            } else {
                scaled_y(pr[i - 1].1, emin_mm as int, h_u, width as int)
            },
            -5_000_000_000_000_000_000_000_000_000_000 <= xp
                <= 5_000_000_000_000_000_000_000_000_000_000,
            -5_000_000_000_000_000_000_000_000_000_000 <= yp
                <= 5_000_000_000_000_000_000_000_000_000_000,
        decreases profile@.len() - i,
    {
        let s = &profile[i];
        assert(pr[i as int] == (s.dist_mm as int, s.elev_mm as int));
        proof {
            crate::metrics::lemma_abs_mul_le(
                s.dist_mm as int,
                len_u,
                100_000_000_000_000_000,
                2 * MICRO_ABS_MAX as int,
            );
            crate::metrics::lemma_abs_mul_le(
                s.elev_mm as int - emin_mm as int,
                h_u,
                200_000_000,
                2 * MICRO_ABS_MAX as int,
            );
        }
        let xn: i128 = (s.dist_mm as i128) * (inp.length_micro as i128);
        let x: i128 = round_div(xn, divisor as i128);
        let yn: i128 = ((s.elev_mm as i128) - (emin_mm as i128)) * (inp.height_micro as i128);
        let y: i128 = round_div(yn, width as i128);
        assert(x == scaled_x(pr[i as int].0, len_u, total));
        assert(y == scaled_y(pr[i as int].1, emin_mm as int, h_u, width as int));
        if i > 0 {
            body.push(0x20);
        }
        body.push(0x6c);
        body.push(0x20);
        push_micro(&mut body, x - xp);
        body.push(0x20);
        push_micro(&mut body, y - yp);
        proof {
            assert(body@ =~= segs_join(
                pr,
                i as int + 1,
                len_u,
                total,
                emin_mm as int,
                h_u,
                width as int,
            ));
        }
        xp = x;
        yp = y;
        i = i + 1;
    }
    (body, yp)
}

/// Builds the elevation-profile drawing attribute: each sample scaled into
/// the descriptor's box, drawn as relative segments from the descriptor's
/// start point, closed by a vertical return to the baseline.
#[verifier::rlimit(100)]
pub fn build_elevation_path(
    profile: &Vec<ElevPoint>,
    total_mm: u64,
    emin_mm: i64,
    emax_mm: i64,
    inp: &InputPath,
) -> (r: Vec<u8>)
    requires
        inp.wf(),
        total_mm <= 100_000_000_000_000_000,
        -100_000_000 <= emin_mm <= 100_000_000,
        -100_000_000 <= emax_mm <= 100_000_000,
        forall|i: int|
            0 <= i < profile@.len() ==> (#[trigger] profile@[i]).dist_mm
                <= 100_000_000_000_000_000 && -100_000_000 <= profile@[i].elev_mm <= 100_000_000,
    ensures
        r@ == spec_elev_path(
            profile_m(profile@),
            total_mm as int,
            emin_mm as int,
            emax_mm as int,
            inp.is_absolute,
            inp.ss@,
            inp.length_micro as int,
            inp.height_micro as int,
        ),
{
    let ghost pr = profile_m(profile@);
    let width: i64 = if emax_mm - emin_mm > 100_000 {
        emax_mm - emin_mm
    } else {
        100_000
    };
    assert(width as int == el_width_of(emin_mm as int, emax_mm as int));
    let divisor: u64 = if total_mm > 0 {
        total_mm
    } else {
        1
    };
    let (body, yp) = build_segments(profile, divisor, width, emin_mm, inp, Ghost(total_mm as int));
    let mut out: Vec<u8> = Vec::new();
    if inp.is_absolute {
        out.push(0x4d);
    } else {
        out.push(0x6d);
    }
    out.push(0x20);
    crate::bytes::push_all(&mut out, inp.ss.as_slice());
    out.push(0x20);
    crate::bytes::push_all(&mut out, body.as_slice());
    out.push(0x20);
    out.push(0x6c);
    out.push(0x20);
    out.push(0x30);
    out.push(0x20);
    push_micro(&mut out, -yp);
    proof {
        assert(out@ =~= spec_elev_path(
            pr,
            total_mm as int,
            emin_mm as int,
            emax_mm as int,
            inp.is_absolute,
            inp.ss@,
            inp.length_micro as int,
            inp.height_micro as int,
        ));
    }
    out
}

} // verus!

//! Color extraction: a `#RRGGBB` or `#RRGGBBAA` hex literal read from a
//! stroke attribute value or from a `stroke:` declaration inside an inline
//! style value.
use vstd::prelude::*;

use crate::num::find_byte_from;
use crate::num::lemma_find_byte_from;

verus! {

/// An RGBA color; alpha is 255 for a six-digit literal.
#[derive(Clone, Copy, PartialEq, Eq, Structural, Debug)]
pub struct Rgba {
    pub r: u8,
    pub g: u8,
    pub b: u8,
    pub a: u8,
}

pub open spec fn is_hex(b: u8) -> bool {
    (0x30 <= b <= 0x39) || (0x61 <= b <= 0x66) || (0x41 <= b <= 0x46)
}

/// The value of one hex digit, case insensitive.
pub open spec fn hexv(b: u8) -> int {
    if 0x30 <= b <= 0x39 {
        b - 0x30
    } else if 0x61 <= b <= 0x66 {
        b - 0x61 + 10
    } else if 0x41 <= b <= 0x46 {
        b - 0x41 + 10
    } else {
        0
    }
}

/// The first index at or after `i` that is not a hex digit.
pub open spec fn hex_run_end(s: Seq<u8>, i: int) -> int
    decreases s.len() - i,
{
    if i < 0 || i >= s.len() {
        s.len() as int
    } else if is_hex(s[i]) {
        hex_run_end(s, i + 1)
    } else {
        i
    }
}

pub proof fn lemma_hex_run_end(s: Seq<u8>, i: int)
    requires
        0 <= i <= s.len(),
    ensures
        i <= hex_run_end(s, i) <= s.len(),
        forall|j: int| i <= j < hex_run_end(s, i) ==> is_hex(s[j]),
    decreases s.len() - i,
{
    if i < s.len() && is_hex(s[i]) {
        lemma_hex_run_end(s, i + 1);
    }
}

/// The byte value of the hex digit pair at `i`.
pub open spec fn hex_pair(s: Seq<u8>, i: int) -> int {
    hexv(s[i]) * 16 + hexv(s[i + 1])
}

/// The color in `s`: the run of hex digits after its first `#`; eight
/// digits give red, green, blue and alpha, six give an opaque color,
/// any other run length gives nothing.
pub open spec fn spec_hex_color(s: Seq<u8>) -> Option<Rgba> {
    let h = find_byte_from(s, 0, 0x23);
    if h < s.len() {
        let st = h + 1;
        let en = hex_run_end(s, st);
        let run = en - st;
        if run >= 8 {
            Some(
                Rgba {
                    r: hex_pair(s, st) as u8,
                    g: hex_pair(s, st + 2) as u8,
                    b: hex_pair(s, st + 4) as u8,
                    a: hex_pair(s, st + 6) as u8,
                },
            )
        } else if run >= 6 {
            Some(
                Rgba {
                    r: hex_pair(s, st) as u8,
                    g: hex_pair(s, st + 2) as u8,
                    b: hex_pair(s, st + 4) as u8,
                    a: 255,
                },
            )
        } else {
            None
        }
    } else {
        None
    }
}

fn hex_digit(b: u8) -> (r: Option<u8>)
    ensures
        r is Some <==> is_hex(b),
        r is Some ==> r->0 == hexv(b),
{
    if 0x30 <= b && b <= 0x39 {
        Some(b - 0x30)
    } else if 0x61 <= b && b <= 0x66 {
        Some(b - 0x61 + 10)
    } else if 0x41 <= b && b <= 0x46 {
        Some(b - 0x41 + 10)
    } else {
        None
    }
}

fn hex_pair_at(s: &[u8], i: usize) -> (r: u8)
    requires
        i + 2 <= s@.len(),
        is_hex(s@[i as int]),
        is_hex(s@[i as int + 1]),
    ensures
        r == hex_pair(s@, i as int),
{
    let hi = match hex_digit(s[i]) {
        Some(v) => v,
        None => 0,
    };
    let lo = match hex_digit(s[i + 1]) {
        Some(v) => v,
        None => 0,
    };
    hi * 16 + lo
}

#[verifier::loop_isolation(false)]
fn hex_run_end_x(s: &[u8], from: usize) -> (r: usize)
    requires
        from <= s@.len(),
    ensures
        r == hex_run_end(s@, from as int),
        from <= r <= s@.len(),
{
    let mut i: usize = from;
    while i < s.len()
        invariant
            from <= i <= s@.len(),
            hex_run_end(s@, from as int) == hex_run_end(s@, i as int),
        decreases s@.len() - i,
    {
        let c = s[i];
        if !((0x30 <= c && c <= 0x39) || (0x61 <= c && c <= 0x66) || (0x41 <= c && c <= 0x46)) {
            return i;
        }
        i = i + 1;
    }
    i
}

/// Reads the hex color of an attribute value such as `#22C55E`.
pub fn parse_hex_color(s: &[u8]) -> (r: Option<Rgba>)
    ensures
        r == spec_hex_color(s@),
{
    let h = crate::num::find_byte(s, 0, 0x23);
    if h >= s.len() {
        return None;
    }
    let st: usize = h + 1;
    let en = hex_run_end_x(s, st);
    proof {
        lemma_hex_run_end(s@, st as int);
    }
    let run: usize = en - st;
    if run >= 8 {
        Some(
            Rgba {
                r: hex_pair_at(s, st),
                g: hex_pair_at(s, st + 2),
                b: hex_pair_at(s, st + 4),
                a: hex_pair_at(s, st + 6),
            },
        )
    } else if run >= 6 {
        Some(Rgba { r: hex_pair_at(s, st), g: hex_pair_at(s, st + 2), b: hex_pair_at(s, st + 4), a: 255 })
    } else {
        None
    }
}

/// The first index at or after `i` where the bytes `stroke:` begin, or the
/// length.
pub open spec fn find_stroke_decl(s: Seq<u8>, i: int) -> int
    decreases s.len() - i,
{
    if i < 0 || i + 7 > s.len() {
        s.len() as int
    } else if s.subrange(i, i + 7) == seq![0x73u8, 0x74u8, 0x72u8, 0x6fu8, 0x6bu8, 0x65u8, 0x3au8] {
        i
    } else {
        find_stroke_decl(s, i + 1)
    }
}

pub proof fn lemma_find_stroke_decl(s: Seq<u8>, i: int)
    requires
        0 <= i <= s.len(),
    ensures
        i <= find_stroke_decl(s, i) <= s.len(),
        find_stroke_decl(s, i) < s.len() ==> find_stroke_decl(s, i) + 7 <= s.len(),
    decreases s.len() - i,
{
    if i + 7 <= s.len() && s.subrange(i, i + 7) != seq![
        0x73u8,
        0x74u8,
        0x72u8,
        0x6fu8,
        0x6bu8,
        0x65u8,
        0x3au8,
    ] {
        lemma_find_stroke_decl(s, i + 1);
    }
}

/// The color of the `stroke:` declaration inside an inline style value,
/// read from the declaration's segment up to the next semicolon.
pub open spec fn spec_style_stroke_color(s: Seq<u8>) -> Option<Rgba> {
    let i = find_stroke_decl(s, 0);
    if i < s.len() {
        let e = find_byte_from(s, i + 7, 0x3b);
        spec_hex_color(s.subrange(i + 7, e))
    } else {
        None
    }
}

#[verifier::loop_isolation(false)]
fn find_stroke_decl_x(s: &[u8]) -> (r: usize)
    ensures
        r == find_stroke_decl(s@, 0),
        r <= s@.len(),
        r < s@.len() ==> r + 7 <= s@.len(),
{
    proof {
        lemma_find_stroke_decl(s@, 0);
    }
    if s.len() < 7 {
        return s.len();
    }
    let mut i: usize = 0;
    while i <= s.len() - 7
        invariant
            s@.len() >= 7,
            0 <= i <= s@.len() - 6,
            find_stroke_decl(s@, 0) == find_stroke_decl(s@, i as int),
        decreases s@.len() - i,
    {
        if s[i] == 0x73 && s[i + 1] == 0x74 && s[i + 2] == 0x72 && s[i + 3] == 0x6f && s[i + 4]
            == 0x6b && s[i + 5] == 0x65 && s[i + 6] == 0x3a {
            assert(s@.subrange(i as int, i as int + 7) =~= seq![
                0x73u8,
                0x74u8,
                0x72u8,
                0x6fu8,
                0x6bu8,
                0x65u8,
                0x3au8,
            ]);
            return i;
        }
        proof {
            assert(s@.subrange(i as int, i as int + 7) != seq![
                0x73u8,
                0x74u8,
                0x72u8,
                0x6fu8,
                0x6bu8,
                0x65u8,
                0x3au8,
            ]) by {
                let pat = seq![0x73u8, 0x74u8, 0x72u8, 0x6fu8, 0x6bu8, 0x65u8, 0x3au8];
                let sub = s@.subrange(i as int, i as int + 7);
                if sub == pat {
                    assert(sub[0] == 0x73 && sub[1] == 0x74 && sub[2] == 0x72 && sub[3] == 0x6f
                        && sub[4] == 0x6b && sub[5] == 0x65 && sub[6] == 0x3a);
                }
            }
        }
        i = i + 1;
    }
    s.len()
}

/// Reads the stroke color out of an inline style value such as
/// `fill:none;stroke:#2db192;stroke-width:1`.
pub fn parse_style_stroke_color(s: &[u8]) -> (r: Option<Rgba>)
    ensures
        r == spec_style_stroke_color(s@),
{
    let i = find_stroke_decl_x(s);
    if i >= s.len() {
        return None;
    }
    let e = crate::num::find_byte(s, i + 7, 0x3b);
    let mut seg: Vec<u8> = Vec::new();
    crate::bytes::push_range(&mut seg, s, i + 7, e);
    parse_hex_color(seg.as_slice())
}

} // verus!

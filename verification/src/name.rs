//! Name resolver: derives the display name of a track from its metadata,
//! falling back to the input file's stem.
//!
//! Names are UTF-8 byte strings; a character starts at every byte that is
//! not a continuation byte, so character counts and boundaries can be read
//! off the bytes without decoding.
use vstd::prelude::*;

use crate::track::Track;
use crate::track::TrackM;
use crate::track::tracks_m;

verus! {

/// Display names longer than this many characters are truncated.
pub const NAME_MAX_CHARS: usize = 32;

/// A UTF-8 continuation byte.
pub open spec fn is_cont(b: u8) -> bool {
    0x80 <= b < 0xc0
}

/// Number of characters: one per byte that starts a character.
pub open spec fn char_count(s: Seq<u8>) -> nat
    decreases s.len(),
{
    if s.len() == 0 {
        0
    } else {
        (if is_cont(s[0]) {
            0nat
        } else {
            1nat
        }) + char_count(s.drop_first())
    }
}

pub proof fn lemma_char_count_concat(a: Seq<u8>, b: Seq<u8>)
    ensures
        char_count(a + b) == char_count(a) + char_count(b),
    decreases a.len(),
{
    if a.len() == 0 {
        assert(a + b =~= b);
    } else {
        assert((a + b).drop_first() =~= a.drop_first() + b);
        lemma_char_count_concat(a.drop_first(), b);
    }
}

/// The index of the `k`-th (zero-based) character start at or after `i`,
/// or the length when there are fewer.
pub open spec fn nth_char_start(s: Seq<u8>, k: int, i: int) -> int
    decreases s.len() - i,
{
    if i < 0 || i >= s.len() {
        s.len() as int
    } else if !is_cont(s[i]) {
        if k <= 0 {
            i
        } else {
            nth_char_start(s, k - 1, i + 1)
        }
    } else {
        nth_char_start(s, k, i + 1)
    }
}

pub proof fn lemma_nth_char_start(s: Seq<u8>, k: int, i: int)
    requires
        0 <= i <= s.len(),
        0 <= k,
        char_count(s.subrange(i, s.len() as int)) > k,
    ensures
        i <= nth_char_start(s, k, i) < s.len(),
        !is_cont(s[nth_char_start(s, k, i)]),
        char_count(s.subrange(i, nth_char_start(s, k, i))) == k,
    decreases s.len() - i,
{
    let r = nth_char_start(s, k, i);
    assert(s.subrange(i, s.len() as int).len() > 0);
    let tail = s.subrange(i, s.len() as int);
    assert(tail[0] == s[i]);
    assert(tail.drop_first() =~= s.subrange(i + 1, s.len() as int));
    if !is_cont(s[i]) {
        if k == 0 {
            assert(s.subrange(i, i) =~= Seq::<u8>::empty());
        } else {
            lemma_nth_char_start(s, k - 1, i + 1);
            let sub = s.subrange(i, r);
            assert(sub[0] == s[i]);
            assert(sub.drop_first() =~= s.subrange(i + 1, r));
        }
    } else {
        lemma_nth_char_start(s, k, i + 1);
        let sub = s.subrange(i, r);
        assert(sub[0] == s[i]);
        assert(sub.drop_first() =~= s.subrange(i + 1, r));
    }
}

/// The horizontal-ellipsis character, as UTF-8 bytes.
pub open spec fn ellipsis() -> Seq<u8> {
    seq![0xe2u8, 0x80u8, 0xa6u8]
}

/// What truncation returns: a name of at most `max` characters is kept; a
/// longer one is cut to `max - 1` characters followed by one ellipsis; a
/// zero `max` yields the empty string.
pub open spec fn spec_truncate(s: Seq<u8>, max: int) -> Seq<u8> {
    if max <= 0 {
        Seq::empty()
    } else if char_count(s) <= max {
        s
    } else {
        s.subrange(0, nth_char_start(s, max - 1, 0)) + ellipsis()
    }
}

/// A truncated over-long name has exactly `max` characters and ends with
/// the ellipsis marker.
pub proof fn lemma_truncate_char_count(s: Seq<u8>, max: int)
    requires
        0 < max,
        char_count(s) > max,
    ensures
        char_count(spec_truncate(s, max)) == max,
        spec_truncate(s, max).len() >= 3,
        spec_truncate(s, max).subrange(
            spec_truncate(s, max).len() - 3,
            spec_truncate(s, max).len() as int,
        ) == ellipsis(),
{
    assert(s.subrange(0, s.len() as int) =~= s);
    lemma_nth_char_start(s, max - 1, 0);
    let cut = nth_char_start(s, max - 1, 0);
    let pre = s.subrange(0, cut);
    lemma_char_count_concat(pre, ellipsis());
    assert(char_count(ellipsis()) == 1) by {
        reveal_with_fuel(char_count, 5);
        assert(ellipsis().drop_first() =~= seq![0x80u8, 0xa6u8]);
        assert(ellipsis().drop_first().drop_first() =~= seq![0xa6u8]);
        assert(seq![0xa6u8].drop_first() =~= Seq::<u8>::empty());
    }
    let r = spec_truncate(s, max);
    assert(r.subrange(r.len() - 3, r.len() as int) =~= ellipsis());
}

/// A name of at most `max` characters is returned unchanged, and a zero
/// width yields the empty string.
pub proof fn lemma_truncate_keeps_short_names(s: Seq<u8>, max: int)
    ensures
        0 < max && char_count(s) <= max ==> spec_truncate(s, max) == s,
        max <= 0 ==> spec_truncate(s, max) == Seq::<u8>::empty(),
{
}

/// Counts the characters of `s`.
pub fn count_chars(s: &[u8]) -> (r: usize)
    ensures
        r == char_count(s@),
{
    let mut i: usize = 0;
    let mut cnt: usize = 0;
    while i < s.len()
        invariant
            0 <= i <= s@.len(),
            cnt == char_count(s@.subrange(0, i as int)),
            cnt <= i,
        decreases s@.len() - i,
    {
        proof {
            lemma_char_count_concat(s@.subrange(0, i as int), seq![s@[i as int]]);
            assert(s@.subrange(0, i as int + 1) =~= s@.subrange(0, i as int) + seq![s@[i as int]]);
            assert(char_count(seq![s@[i as int]]) == (if is_cont(s@[i as int]) {
                0nat
            } else {
                1nat
            })) by {
                reveal_with_fuel(char_count, 3);
                assert(seq![s@[i as int]].drop_first() =~= Seq::<u8>::empty());
            }
        }
        if !(0x80 <= s[i] && s[i] < 0xc0) {
            cnt = cnt + 1;
        }
        i = i + 1;
    }
    assert(s@.subrange(0, s@.len() as int) =~= s@);
    cnt
}

/// Truncates `s` to at most `max_chars` characters, replacing the last kept
/// character with an ellipsis when anything was cut.
pub fn truncate_ellipsis(s: &[u8], max_chars: usize) -> (r: Vec<u8>)
    ensures
        r@ == spec_truncate(s@, max_chars as int),
{
    let mut out: Vec<u8> = Vec::new();
    if max_chars == 0 {
        return out;
    }
    let total = count_chars(s);
    if total <= max_chars {
        crate::bytes::push_all(&mut out, s);
        return out;
    }
    // Find the byte where character `max_chars - 1` starts.
    let k: usize = max_chars - 1;
    proof {
        assert(s@.subrange(0, s@.len() as int) =~= s@);
        lemma_nth_char_start(s@, k as int, 0);
    }
    let mut idx: usize = 0;
    let mut rem: usize = k;
    while idx < s.len() && (rem > 0 || (0x80 <= s[idx] && s[idx] < 0xc0))
        invariant
            0 <= idx <= s@.len(),
            0 <= rem <= k,
            nth_char_start(s@, k as int, 0) == nth_char_start(s@, rem as int, idx as int),
            nth_char_start(s@, k as int, 0) < s@.len(),
        decreases s@.len() - idx, rem,
    {
        if !(0x80 <= s[idx] && s[idx] < 0xc0) {
            rem = rem - 1;
        }
        idx = idx + 1;
    }
    assert(idx == nth_char_start(s@, k as int, 0));
    crate::bytes::push_range(&mut out, s, 0, idx);
    out.push(0xe2);
    out.push(0x80);
    out.push(0xa6);
    assert(out@ =~= s@.subrange(0, idx as int) + ellipsis());
    out
}

/// A one-byte whitespace character: the ASCII whitespace set.
pub open spec fn is_uni_ws1(b: u8) -> bool {
    b == 0x09 || b == 0x0a || b == 0x0b || b == 0x0c || b == 0x0d || b == 0x20
}

/// A two-byte whitespace character: next line and no-break space.
pub open spec fn is_uni_ws2(a: u8, b: u8) -> bool {
    a == 0xc2 && (b == 0x85 || b == 0xa0)
}

/// A three-byte whitespace character: the ogham space mark, the en-quad
/// to hair-space range, the line and paragraph separators, the narrow and
/// medium mathematical spaces, and the ideographic space.
pub open spec fn is_uni_ws3(a: u8, b: u8, c: u8) -> bool {
    ||| (a == 0xe1 && b == 0x9a && c == 0x80)
    ||| (a == 0xe2 && b == 0x80 && (0x80 <= c <= 0x8a || c == 0xa8 || c == 0xa9 || c == 0xaf))
    ||| (a == 0xe2 && b == 0x81 && c == 0x9f)
    ||| (a == 0xe3 && b == 0x80 && c == 0x80)
}

/// The byte width of the whitespace character starting at `i`, or zero.
pub open spec fn ws_width_front(s: Seq<u8>, i: int) -> int {
    if i < 0 || i >= s.len() {
        0
    } else if is_uni_ws1(s[i]) {
        1
    } else if i + 2 <= s.len() && is_uni_ws2(s[i], s[i + 1]) {
        2
    } else if i + 3 <= s.len() && is_uni_ws3(s[i], s[i + 1], s[i + 2]) {
        3
    } else {
        0
    }
}

/// The byte width of the whitespace character ending just before `j`, or
/// zero; nothing below `lo` counts.
pub open spec fn ws_width_back(s: Seq<u8>, lo: int, j: int) -> int {
    if j > s.len() || j - 1 < lo {
        0
    } else if is_uni_ws1(s[j - 1]) {
        1
    } else if j - 2 >= lo && is_uni_ws2(s[j - 2], s[j - 1]) {
        2
    } else if j - 3 >= lo && is_uni_ws3(s[j - 3], s[j - 2], s[j - 1]) {
        3
    } else {
        0
    }
}

/// The index of the first byte that does not continue the run of leading
/// whitespace characters.
pub open spec fn trim_front_idx(s: Seq<u8>, i: int) -> int
    decreases s.len() - i,
{
    let w = ws_width_front(s, i);
    if w > 0 {
        trim_front_idx(s, i + w)
    } else {
        i
    }
}

/// The index just past the last byte that does not close the run of
/// trailing whitespace characters, scanning no lower than `lo`.
pub open spec fn trim_back_idx(s: Seq<u8>, lo: int, j: int) -> int
    decreases j - lo,
{
    let w = ws_width_back(s, lo, j);
    if w > 0 {
        trim_back_idx(s, lo, j - w)
    } else {
        j
    }
}

/// `s` without leading and trailing whitespace characters, one-, two- and
/// three-byte encodings included.
pub open spec fn trim(s: Seq<u8>) -> Seq<u8> {
    let f = trim_front_idx(s, 0);
    s.subrange(f, trim_back_idx(s, f, s.len() as int))
}

/// The width of the whitespace character starting at `i`.
fn ws_width_front_x(s: &[u8], i: usize) -> (w: usize)
    requires
        i <= s@.len(),
    ensures
        w as int == ws_width_front(s@, i as int),
        i + w <= s@.len(),
{
    if i >= s.len() {
        return 0;
    }
    let a = s[i];
    if a == 0x09 || a == 0x0a || a == 0x0b || a == 0x0c || a == 0x0d || a == 0x20 {
        return 1;
    }
    if s.len() - i >= 2 && a == 0xc2 && (s[i + 1] == 0x85 || s[i + 1] == 0xa0) {
        return 2;
    }
    if s.len() - i >= 3 {
        let b = s[i + 1];
        let c = s[i + 2];
        if (a == 0xe1 && b == 0x9a && c == 0x80) || (a == 0xe2 && b == 0x80 && (0x80 <= c && c
            <= 0x8a || c == 0xa8 || c == 0xa9 || c == 0xaf)) || (a == 0xe2 && b == 0x81 && c
            == 0x9f) || (a == 0xe3 && b == 0x80 && c == 0x80) {
            return 3;
        }
    }
    0
}

/// The width of the whitespace character ending just before `j`, with `lo`
/// the floor.
fn ws_width_back_x(s: &[u8], lo: usize, j: usize) -> (w: usize)
    requires
        lo <= j <= s@.len(),
    ensures
        w as int == ws_width_back(s@, lo as int, j as int),
        w <= j - lo,
{
    if j < 1 || j - 1 < lo {
        return 0;
    }
    let z = s[j - 1];
    if z == 0x09 || z == 0x0a || z == 0x0b || z == 0x0c || z == 0x0d || z == 0x20 {
        return 1;
    }
    if j >= 2 && j - 2 >= lo && s[j - 2] == 0xc2 && (z == 0x85 || z == 0xa0) {
        return 2;
    }
    if j >= 3 && j - 3 >= lo {
        let a = s[j - 3];
        let b = s[j - 2];
        if (a == 0xe1 && b == 0x9a && z == 0x80) || (a == 0xe2 && b == 0x80 && (0x80 <= z && z
            <= 0x8a || z == 0xa8 || z == 0xa9 || z == 0xaf)) || (a == 0xe2 && b == 0x81 && z
            == 0x9f) || (a == 0xe3 && b == 0x80 && z == 0x80) {
            return 3;
        }
    }
    0
}

/// Copies `s` without leading and trailing whitespace characters.
#[verifier::loop_isolation(false)]
pub fn trim_bytes(s: &[u8]) -> (r: Vec<u8>)
    ensures
        r@ == trim(s@),
{
    let n: usize = s.len();
    let mut st: usize = 0;
    loop
        invariant
            0 <= st <= n == s@.len(),
            trim_front_idx(s@, 0) == trim_front_idx(s@, st as int),
        decreases s@.len() - st,
    {
        let w = ws_width_front_x(s, st);
        if w == 0 {
            break;
        }
        st = st + w;
    }
    assert(trim_front_idx(s@, 0) == st);
    let mut en: usize = n;
    loop
        invariant
            st <= en <= s@.len(),
            trim_back_idx(s@, st as int, s@.len() as int) == trim_back_idx(
                s@,
                st as int,
                en as int,
            ),
        decreases en,
    {
        let w = ws_width_back_x(s, st, en);
        if w == 0 {
            break;
        }
        en = en - w;
    }
    assert(trim_back_idx(s@, st as int, s@.len() as int) == en);
    let mut out: Vec<u8> = Vec::new();
    crate::bytes::push_range(&mut out, s, st, en);
    out
}

/// The index of the last occurrence of `b`, or minus one.
pub open spec fn rfind(s: Seq<u8>, b: u8) -> int
    decreases s.len(),
{
    if s.len() == 0 {
        -1
    } else if s.last() == b {
        s.len() - 1
    } else {
        rfind(s.drop_last(), b)
    }
}

pub proof fn lemma_rfind_range(s: Seq<u8>, b: u8)
    ensures
        -1 <= rfind(s, b) < s.len(),
    decreases s.len(),
{
    if s.len() > 0 && s.last() != b {
        lemma_rfind_range(s.drop_last(), b);
    }
}

/// Finds the last occurrence of `b` in `s[..from]`, as one past its index,
/// or zero when absent.
#[verifier::loop_isolation(false)]
fn rfind_byte(s: &[u8], from: usize, b: u8) -> (r: usize)
    requires
        from <= s@.len(),
    ensures
        r == 1 + rfind(s@.subrange(0, from as int), b),
{
    proof {
        lemma_rfind_range(s@.subrange(0, from as int), b);
    }
    let mut en: usize = from;
    while en > 0
        invariant
            0 <= en <= from <= s@.len(),
            rfind(s@.subrange(0, from as int), b) == rfind(s@.subrange(0, en as int), b),
        decreases en,
    {
        proof {
            assert(s@.subrange(0, en as int).last() == s@[en as int - 1]);
            assert(s@.subrange(0, en as int).drop_last() =~= s@.subrange(0, en as int - 1));
            lemma_rfind_range(s@.subrange(0, en as int), b);
        }
        if s[en - 1] == b {
            return en;
        }
        en = en - 1;
    }
    proof {
        assert(s@.subrange(0, 0).len() == 0);
    }
    0
}

/// `path` without trailing slashes.
pub open spec fn drop_slashes(path: Seq<u8>) -> Seq<u8>
    decreases path.len(),
{
    if path.len() > 0 && path.last() == 0x2f {
        drop_slashes(path.drop_last())
    } else {
        path
    }
}

/// The last path component: the part after the last slash, trailing
/// slashes not counting.
pub open spec fn file_name_of(path: Seq<u8>) -> Seq<u8> {
    let p = drop_slashes(path);
    p.subrange(rfind(p, 0x2f) + 1, p.len() as int)
}

/// The stem of `path`: its file name up to the last dot, a leading dot not
/// counting; empty for an empty name or a bare dot pair.
pub open spec fn stem_of(path: Seq<u8>) -> Seq<u8> {
    let n = file_name_of(path);
    if n == seq![0x2eu8] || n == seq![0x2eu8, 0x2eu8] {
        Seq::empty()
    } else {
        let j = rfind(n, 0x2e);
        if j <= 0 {
            n
        } else {
            n.subrange(0, j)
        }
    }
}

/// Computes the stem of `path`.
pub fn file_stem(path: &[u8]) -> (r: Vec<u8>)
    ensures
        r@ == stem_of(path@),
{
    let mut en: usize = path.len();
    proof {
        assert(path@.subrange(0, path@.len() as int) =~= path@);
    }
    while en > 0 && path[en - 1] == 0x2f
        invariant
            0 <= en <= path@.len(),
            drop_slashes(path@) == drop_slashes(path@.subrange(0, en as int)),
        decreases en,
    {
        proof {
            assert(path@.subrange(0, en as int).last() == path@[en as int - 1]);
            assert(path@.subrange(0, en as int).drop_last() =~= path@.subrange(0, en as int - 1));
        }
        en = en - 1;
    }
    proof {
        assert(path@.subrange(0, path@.len() as int) =~= path@);
        if en > 0 {
            assert(path@.subrange(0, en as int).last() == path@[en as int - 1]);
            assert(drop_slashes(path@) == path@.subrange(0, en as int));
        } else {
            assert(path@.subrange(0, 0).len() == 0);
            assert(drop_slashes(path@) == path@.subrange(0, en as int));
        }
        lemma_rfind_range(path@.subrange(0, en as int), 0x2f);
    }
    let start: usize = rfind_byte(path, en, 0x2f);
    let mut name: Vec<u8> = Vec::new();
    crate::bytes::push_range(&mut name, path, start, en);
    assert(name@ == file_name_of(path@)) by {
        assert(name@ =~= path@.subrange(0, en as int).subrange(
            rfind(path@.subrange(0, en as int), 0x2f) + 1,
            en as int,
        ));
    }
    let mut out: Vec<u8> = Vec::new();
    if name.len() == 1 && name[0] == 0x2e {
        assert(name@ =~= seq![0x2eu8]);
        return out;
    }
    if name.len() == 2 && name[0] == 0x2e && name[1] == 0x2e {
        assert(name@ =~= seq![0x2eu8, 0x2eu8]);
        return out;
    }
    proof {
        assert(name@ != seq![0x2eu8]) by {
            if name@ == seq![0x2eu8] {
                assert(name@.len() == 1 && name@[0] == 0x2e);
            }
        }
        assert(name@ != seq![0x2eu8, 0x2eu8]) by {
            if name@ == seq![0x2eu8, 0x2eu8] {
                assert(name@.len() == 2 && name@[0] == 0x2e && name@[1] == 0x2e);
            }
        }
        assert(name@.subrange(0, name@.len() as int) =~= name@);
        lemma_rfind_range(name@, 0x2e);
    }
    let dot: usize = rfind_byte(name.as_slice(), name.len(), 0x2e);
    if dot <= 1 {
        assert(rfind(name@, 0x2e) <= 0);
        return name;
    }
    crate::bytes::push_range(&mut out, name.as_slice(), 0, dot - 1);
    out
}

/// The fixed name used when neither metadata nor the file gives one.
pub open spec fn default_name() -> Seq<u8> {
    seq![0x74u8, 0x72u8, 0x61u8, 0x63u8, 0x6bu8]
}

/// The first track-level name that is non-empty once trimmed.
pub open spec fn first_name(ts: Seq<TrackM>) -> Option<Seq<u8>>
    decreases ts.len(),
{
    if ts.len() == 0 {
        None
    } else if ts[0].name is Some && trim(ts[0].name->0).len() > 0 {
        Some(trim(ts[0].name->0))
    } else {
        first_name(ts.drop_first())
    }
}

/// What the name resolver returns: the first usable track-level name,
/// trimmed and truncated; else the file's stem; else the fixed default.
pub open spec fn spec_track_name(ts: Seq<TrackM>, filename: Seq<u8>) -> Seq<u8> {
    match first_name(ts) {
        Some(n) => spec_truncate(n, NAME_MAX_CHARS as int),
        None => if stem_of(filename).len() > 0 {
            stem_of(filename)
        } else {
            default_name()
        },
    }
}

/// With no usable track-level name the display name is the input file's
/// stem, and with an empty stem it is the fixed default.
pub proof fn lemma_name_fallback(ts: Seq<TrackM>, filename: Seq<u8>)
    requires
        first_name(ts) is None,
    ensures
        stem_of(filename).len() > 0 ==> spec_track_name(ts, filename) == stem_of(filename),
        stem_of(filename).len() == 0 ==> spec_track_name(ts, filename) == default_name(),
{
}

/// Resolves the display name of a load: the first non-empty trimmed
/// track-level name, truncated to the display width; with none, the input
/// file's stem; with an empty stem, the fixed default.
#[verifier::loop_isolation(false)]
pub fn compute_track_name(tracks: &Vec<Track>, filename: &[u8]) -> (r: Vec<u8>)
    ensures
        r@ == spec_track_name(tracks_m(tracks@), filename@),
{
    let ghost tm = tracks_m(tracks@);
    proof {
        assert(tm.skip(0) =~= tm);
    }
    let mut i: usize = 0;
    while i < tracks.len()
        invariant
            0 <= i <= tracks@.len(),
            first_name(tm) == first_name(tm.skip(i as int)),
        decreases tracks@.len() - i,
    {
        proof {
            assert(tm.skip(i as int)[0] == tm[i as int]);
            assert(tm[i as int] == tracks@[i as int].m());
            assert(tm.skip(i as int).drop_first() =~= tm.skip(i as int + 1));
        }
        match &tracks[i].name {
            Some(n) => {
                let t = trim_bytes(n.as_slice());
                if t.len() > 0 {
                    assert(first_name(tm) == Some(t@));
                    return truncate_ellipsis(t.as_slice(), NAME_MAX_CHARS);
                }
            },
            None => {},
        }
        i = i + 1;
    }
    proof {
        assert(tm.skip(tm.len() as int).len() == 0);
        assert(first_name(tm) is None);
    }
    let stem = file_stem(filename);
    if stem.len() > 0 {
        return stem;
    }
    let mut out: Vec<u8> = Vec::new();
    out.push(0x74);
    out.push(0x72);
    out.push(0x61);
    out.push(0x63);
    out.push(0x6b);
    assert(out@ =~= default_name());
    out
}

} // verus!

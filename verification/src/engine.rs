//! The template substitution engine: one forward pass over the document's
//! tokens that resolves recognized placeholder elements through the context
//! and an asset provider, and copies everything else through byte for byte.
use vstd::prelude::*;

use crate::bytes::is_ws;
use crate::color::Rgba;
use crate::context::Context;
use crate::metrics::SvgMetrics;
use crate::num::find_byte_from;
use crate::num::lemma_find_byte_from;
use crate::tok::Tok;
use crate::tok::TokKind;
use crate::tok::TemplateError;
use crate::tok::chain_pos;
use crate::tok::scan_ok;

verus! {

/// Where the closing quote of the attribute candidate at `i` would be.
pub open spec fn attr_close(doc: Seq<u8>, i: int, name: Seq<u8>) -> int {
    find_byte_from(doc, i + 3 + name.len(), doc[i + 2 + name.len()])
}

/// Whether `i` starts an attribute `name="value"` (or single-quoted) that
/// closes before `te`: a whitespace byte, the name, an equals sign, a
/// quote, and a matching closing quote.
pub open spec fn attr_match_at(doc: Seq<u8>, i: int, te: int, name: Seq<u8>) -> bool {
    &&& i + 3 + name.len() <= te
    &&& is_ws(doc[i])
    &&& doc.subrange(i + 1, i + 1 + name.len()) == name
    &&& doc[i + 1 + name.len()] == 0x3d
    &&& (doc[i + 2 + name.len()] == 0x22 || doc[i + 2 + name.len()] == 0x27)
    &&& attr_close(doc, i, name) < te
}

/// The value span of the first `name` attribute inside `[i, te)`, as
/// (value start, value end).
pub open spec fn spec_find_attr(doc: Seq<u8>, i: int, te: int, name: Seq<u8>) -> Option<
    (int, int),
>
    decreases te - i,
{
    if i < 0 || i >= te {
        None
    } else if attr_match_at(doc, i, te, name) {
        Some((i + 3 + name.len(), attr_close(doc, i, name)))
    } else {
        spec_find_attr(doc, i + 1, te, name)
    }
}

pub proof fn lemma_spec_find_attr(doc: Seq<u8>, i: int, te: int, name: Seq<u8>)
    requires
        0 <= i <= te <= doc.len(),
    ensures
        spec_find_attr(doc, i, te, name) is Some ==> {
            let v = spec_find_attr(doc, i, te, name)->0;
            let vs = v.0;
            let ve = v.1;
            &&& i + 3 + name.len() <= vs
            &&& vs <= ve < te
            &&& is_ws(doc[vs - 3 - name.len()])
            &&& doc.subrange(vs - 2 - name.len(), vs - 2) == name
            &&& doc[vs - 2 - name.len() + name.len()] == 0x3d
            &&& (doc[vs - 1] == 0x22 || doc[vs - 1] == 0x27)
            &&& doc[ve] == doc[vs - 1]
            &&& forall|j: int| vs <= j < ve ==> #[trigger] doc[j] != doc[vs - 1]
        },
    decreases te - i,
{
    if 0 <= i < te {
        if attr_match_at(doc, i, te, name) {
            let vs = i + 3 + name.len();
            lemma_find_byte_from(doc, vs as int, doc[i + 2 + name.len()]);
            assert(doc.subrange(vs - 2 - name.len(), vs - 2) =~= doc.subrange(
                i + 1,
                i + 1 + name.len(),
            ));
        } else {
            lemma_spec_find_attr(doc, i + 1, te, name);
        }
    }
}

/// Whether the bytes at `at` equal `pat`.
#[verifier::loop_isolation(false)]
fn bytes_at(doc: &[u8], at: usize, pat: &[u8]) -> (r: bool)
    requires
        at + pat@.len() <= doc@.len(),
    ensures
        r == (doc@.subrange(at as int, at as int + pat@.len() as int) == pat@),
{
    let dl: usize = doc.len();
    let mut i: usize = 0;
    while i < pat.len()
        invariant
            0 <= i <= pat@.len(),
            forall|j: int| 0 <= j < i ==> doc@[at + j] == pat@[j],
        decreases pat@.len() - i,
    {
        assert(at + i < doc@.len());
        if doc[at + i] != pat[i] {
            assert(doc@.subrange(at as int, at as int + pat@.len() as int)[i as int] != pat@[i as int]);
            return false;
        }
        i = i + 1;
    }
    assert(doc@.subrange(at as int, at as int + pat@.len() as int) =~= pat@);
    true
}

/// Finds the value span of the first `name` attribute of the tag `[ts, te)`.
#[verifier::rlimit(100)]
#[verifier::loop_isolation(false)]
pub fn find_attr(doc: &[u8], ts: usize, te: usize, name: &[u8]) -> (r: Option<(usize, usize)>)
    requires
        ts <= te <= doc@.len(),
    ensures
        match r {
            Some(v) => spec_find_attr(doc@, ts as int, te as int, name@) == Some(
                (v.0 as int, v.1 as int),
            ) && ts <= v.0 <= v.1 < te,
            None => spec_find_attr(doc@, ts as int, te as int, name@) is None,
        },
{
    proof {
        lemma_spec_find_attr(doc@, ts as int, te as int, name@);
    }
    let mut i: usize = ts;
    while i < te
        invariant
            ts <= i <= te,
            spec_find_attr(doc@, ts as int, te as int, name@) == spec_find_attr(
                doc@,
                i as int,
                te as int,
                name@,
            ),
        decreases te - i,
    {
        if te - i >= 3 && te - i - 3 >= name.len() && crate::bytes::ws_byte(doc[i]) {
            if bytes_at(doc, i + 1, name) {
                let eq_at: usize = i + 1 + name.len();
                let q_at: usize = eq_at + 1;
                if doc[eq_at] == 0x3d && (doc[q_at] == 0x22 || doc[q_at] == 0x27) {
                    let vs: usize = q_at + 1;
                    let close = crate::num::find_byte(doc, vs, doc[q_at]);
                    if close < te {
                        assert(attr_match_at(doc@, i as int, te as int, name@));
                        return Some((vs, close));
                    } else {
                        assert(!attr_match_at(doc@, i as int, te as int, name@));
                    }
                } else {
                    assert(!attr_match_at(doc@, i as int, te as int, name@));
                }
            } else {
                assert(!attr_match_at(doc@, i as int, te as int, name@));
            }
        } else {
            assert(!attr_match_at(doc@, i as int, te as int, name@));
        }
        i = i + 1;
    }
    None
}

/// The `value_` identifier prefix.
pub open spec fn prefix_value() -> Seq<u8> {
    seq![0x76u8, 0x61u8, 0x6cu8, 0x75u8, 0x65u8, 0x5fu8]
}

/// The `path_` identifier prefix.
pub open spec fn prefix_path() -> Seq<u8> {
    seq![0x70u8, 0x61u8, 0x74u8, 0x68u8, 0x5fu8]
}

/// The `image_` identifier prefix.
pub open spec fn prefix_image() -> Seq<u8> {
    seq![0x69u8, 0x6du8, 0x61u8, 0x67u8, 0x65u8, 0x5fu8]
}

pub open spec fn has_prefix_at(doc: Seq<u8>, j: int, pat: Seq<u8>) -> bool {
    0 <= j && j + pat.len() <= doc.len() && doc.subrange(j, j + pat.len()) == pat
}

/// Whether `i` starts the text `id=` followed by a quote and a recognized
/// identifier prefix: the shape every placeholder element carries.
#[verifier::opaque]
pub open spec fn is_marker_at(doc: Seq<u8>, i: int) -> bool {
    &&& 0 <= i
    &&& i + 4 <= doc.len()
    &&& doc[i] == 0x69
    &&& doc[i + 1] == 0x64
    &&& doc[i + 2] == 0x3d
    &&& (doc[i + 3] == 0x22 || doc[i + 3] == 0x27)
    &&& (has_prefix_at(doc, i + 4, prefix_value()) || has_prefix_at(doc, i + 4, prefix_path())
        || has_prefix_at(doc, i + 4, prefix_image()))
}

/// Whether the document holds any recognized placeholder identifier.
#[verifier::opaque]
pub open spec fn has_marker(doc: Seq<u8>) -> bool {
    exists|i: int| is_marker_at(doc, i)
}

/// A run holding at least one byte that is not whitespace: only such runs
/// count as text events for the pending replacement.
pub open spec fn spec_has_non_ws(doc: Seq<u8>, from: int, to: int) -> bool {
    exists|j: int| from <= j < to && !is_ws(#[trigger] doc[j])
}

#[verifier::loop_isolation(false)]
fn has_non_ws(doc: &[u8], from: usize, to: usize) -> (r: bool)
    requires
        from <= to <= doc@.len(),
    ensures
        r == spec_has_non_ws(doc@, from as int, to as int),
{
    let mut i: usize = from;
    while i < to
        invariant
            from <= i <= to,
            forall|j: int| from <= j < i ==> is_ws(#[trigger] doc@[j]),
        decreases to - i,
    {
        if !crate::bytes::ws_byte(doc[i]) {
            return true;
        }
        i = i + 1;
    }
    false
}

/// The provider of image assets for `image_` placeholders: hands back a
/// reference string for a requested identifier, pixel size and track
/// color, or nothing, which leaves the element unchanged.
pub trait AssetProvider {
    fn get_image(&mut self, k: &[u8], w_px: u32, h_px: u32, color: Option<Rgba>) -> Option<
        Vec<u8>,
    >;
}

/// A provider with no assets: every image placeholder stays unchanged.
pub struct NoAssets;

impl AssetProvider for NoAssets {
    fn get_image(&mut self, k: &[u8], w_px: u32, h_px: u32, color: Option<Rgba>) -> Option<
        Vec<u8>,
    > {
        None
    }
}

/// A provider backed by the context's memoized map asset.
pub struct ContextAssets<'a> {
    pub ctx: &'a Context,
}

impl AssetProvider for ContextAssets<'_> {
    fn get_image(&mut self, k: &[u8], w_px: u32, h_px: u32, color: Option<Rgba>) -> Option<
        Vec<u8>,
    > {
        self.ctx.get_image(k, w_px, h_px, color)
    }
}

/// The attribute name `id`.
pub open spec fn name_id_s() -> Seq<u8> {
    seq![0x69u8, 0x64u8]
}

/// The attribute name `d`.
pub open spec fn name_d_s() -> Seq<u8> {
    seq![0x64u8]
}

/// The attribute name `width`.
pub open spec fn name_width_s() -> Seq<u8> {
    seq![0x77u8, 0x69u8, 0x64u8, 0x74u8, 0x68u8]
}

/// The attribute name `height`.
pub open spec fn name_height_s() -> Seq<u8> {
    seq![0x68u8, 0x65u8, 0x69u8, 0x67u8, 0x68u8, 0x74u8]
}

/// The attribute name `viewBox`.
pub open spec fn name_viewbox_s() -> Seq<u8> {
    seq![0x76u8, 0x69u8, 0x65u8, 0x77u8, 0x42u8, 0x6fu8, 0x78u8]
}

/// The attribute name `href`.
pub open spec fn name_href_s() -> Seq<u8> {
    seq![0x68u8, 0x72u8, 0x65u8, 0x66u8]
}

/// The attribute name `xlink:href`.
pub open spec fn name_xlink_href_s() -> Seq<u8> {
    seq![0x78u8, 0x6cu8, 0x69u8, 0x6eu8, 0x6bu8, 0x3au8, 0x68u8, 0x72u8, 0x65u8, 0x66u8]
}

/// The name bytes `id`.
fn name_id() -> (r: Vec<u8>)
    ensures
        r@ == name_id_s(),
{
    let v: Vec<u8> = vec![0x69u8, 0x64u8];
    assert(v@ =~= seq![0x69u8, 0x64u8]);
    v
}

/// The name bytes `d`.
fn name_d() -> (r: Vec<u8>)
    ensures
        r@ == name_d_s(),
{
    let v: Vec<u8> = vec![0x64u8];
    assert(v@ =~= seq![0x64u8]);
    v
}

/// The name bytes `width`.
fn name_width() -> (r: Vec<u8>)
    ensures
        r@ == name_width_s(),
{
    let v: Vec<u8> = vec![0x77u8, 0x69u8, 0x64u8, 0x74u8, 0x68u8];
    assert(v@ =~= seq![0x77u8, 0x69u8, 0x64u8, 0x74u8, 0x68u8]);
    v
}

/// The name bytes `height`.
fn name_height() -> (r: Vec<u8>)
    ensures
        r@ == name_height_s(),
{
    let v: Vec<u8> = vec![0x68u8, 0x65u8, 0x69u8, 0x67u8, 0x68u8, 0x74u8];
    assert(v@ =~= seq![0x68u8, 0x65u8, 0x69u8, 0x67u8, 0x68u8, 0x74u8]);
    v
}

/// The name bytes `viewBox`.
fn name_viewbox() -> (r: Vec<u8>)
    ensures
        r@ == name_viewbox_s(),
{
    let v: Vec<u8> = vec![0x76u8, 0x69u8, 0x65u8, 0x77u8, 0x42u8, 0x6fu8, 0x78u8];
    assert(v@ =~= seq![0x76u8, 0x69u8, 0x65u8, 0x77u8, 0x42u8, 0x6fu8, 0x78u8]);
    v
}

/// The name bytes `href`.
fn name_href() -> (r: Vec<u8>)
    ensures
        r@ == name_href_s(),
{
    let v: Vec<u8> = vec![0x68u8, 0x72u8, 0x65u8, 0x66u8];
    assert(v@ =~= seq![0x68u8, 0x72u8, 0x65u8, 0x66u8]);
    v
}

/// The name bytes `xlink:href`.
fn name_xlink_href() -> (r: Vec<u8>)
    ensures
        r@ == name_xlink_href_s(),
{
    let v: Vec<u8> = vec![0x78u8, 0x6cu8, 0x69u8, 0x6eu8, 0x6bu8, 0x3au8, 0x68u8, 0x72u8, 0x65u8, 0x66u8];
    assert(v@ =~= seq![
        0x78u8,
        0x6cu8,
        0x69u8,
        0x6eu8,
        0x6bu8,
        0x3au8,
        0x68u8,
        0x72u8,
        0x65u8,
        0x66u8,
    ]);
    v
}

/// The prefix bytes `value_`.
fn prefix_value_b() -> (r: Vec<u8>)
    ensures
        r@ == prefix_value(),
{
    let v: Vec<u8> = vec![0x76u8, 0x61u8, 0x6cu8, 0x75u8, 0x65u8, 0x5fu8];
    assert(v@ =~= prefix_value());
    v
}

/// The prefix bytes `path_`.
fn prefix_path_b() -> (r: Vec<u8>)
    ensures
        r@ == prefix_path(),
{
    let v: Vec<u8> = vec![0x70u8, 0x61u8, 0x74u8, 0x68u8, 0x5fu8];
    assert(v@ =~= prefix_path());
    v
}

/// The prefix bytes `image_`.
fn prefix_image_b() -> (r: Vec<u8>)
    ensures
        r@ == prefix_image(),
{
    let v: Vec<u8> = vec![0x69u8, 0x6du8, 0x61u8, 0x67u8, 0x65u8, 0x5fu8];
    assert(v@ =~= prefix_image());
    v
}

/// Copies the bytes `[from, to)` of `doc` into a fresh vector.
fn copy_range(doc: &[u8], from: usize, to: usize) -> (r: Vec<u8>)
    requires
        from <= to <= doc@.len(),
    ensures
        r@ == doc@.subrange(from as int, to as int),
{
    let mut v: Vec<u8> = Vec::new();
    crate::bytes::push_range(&mut v, doc, from, to);
    v
}

/// The witness that an `id` attribute whose value starts with a recognized
/// prefix puts a marker into the document.
proof fn lemma_marker_from_attr(doc: Seq<u8>, vs: int, ve: int, pat: Seq<u8>)
    requires
        4 <= vs <= ve <= doc.len(),
        doc[vs - 4] == 0x69,
        doc[vs - 3] == 0x64,
        doc[vs - 2] == 0x3d,
        doc[vs - 1] == 0x22 || doc[vs - 1] == 0x27,
        pat.len() <= ve - vs,
        doc.subrange(vs, vs + pat.len()) == pat,
        pat == prefix_value() || pat == prefix_path() || pat == prefix_image(),
    ensures
        has_marker(doc),
{
    reveal(is_marker_at);
    reveal(has_marker);
    assert(has_prefix_at(doc, vs, pat));
    assert(is_marker_at(doc, vs - 4));
}

/// The view of an optional byte vector.
pub open spec fn pend_view(p: Option<Vec<u8>>) -> Option<Seq<u8>> {
    match p {
        Some(v) => Some(v@),
        None => None,
    }
}

/// One image request of the pass, as it was handed to the asset provider,
/// together with the provider's response.
pub ghost struct ImgEvent {
    pub k: Seq<u8>,
    pub w_px: u32,
    pub h_px: u32,
    pub color: Option<Rgba>,
    pub resp: Option<Seq<u8>>,
}

/// The response carried by an optional image event.
pub open spec fn resp_of(ev: Option<ImgEvent>) -> Option<Seq<u8>> {
    match ev {
        Some(e) => e.resp,
        None => None,
    }
}

/// The full state of the pass: the output written so far, the one-slot
/// pending text replacement, and the document metrics once seen.
#[verifier::ext_equal]
pub ghost struct EngineState {
    pub out: Seq<u8>,
    pub pending: Option<Seq<u8>>,
    pub metrics: Option<SvgMetrics>,
    pub metrics_done: bool,
}

/// The state the pass starts in.
pub open spec fn engine_init() -> EngineState {
    EngineState { out: Seq::empty(), pending: None, metrics: None, metrics_done: false }
}

/// Whether the start tag `[ts, te)` opens an `svg` element.
pub open spec fn spec_is_svg_tag(doc: Seq<u8>, ts: int, te: int) -> bool {
    &&& te - ts >= 5
    &&& doc[ts + 1] == 0x73
    &&& doc[ts + 2] == 0x76
    &&& doc[ts + 3] == 0x67
    &&& (is_ws(doc[ts + 4]) || doc[ts + 4] == 0x3e || doc[ts + 4] == 0x2f)
}

/// The metrics a root tag declares: its width, height and viewBox resolved
/// through the metrics builder.
#[verifier::opaque]
pub open spec fn spec_tag_metrics(doc: Seq<u8>, ts: int, te: int) -> Option<SvgMetrics> {
    match spec_find_attr(doc, ts, te, name_width_s()) {
        None => None,
        Some(w) => match spec_find_attr(doc, ts, te, name_height_s()) {
            None => None,
            Some(h) => {
                let vb = match spec_find_attr(doc, ts, te, name_viewbox_s()) {
                    Some(v) => Some(doc.subrange(v.0, v.1)),
                    None => None,
                };
                match crate::metrics::spec_metrics(
                    doc.subrange(w.0, w.1),
                    doc.subrange(h.0, h.1),
                    vb,
                ) {
                    Some(q) => Some(
                        SvgMetrics {
                            sx_num: q.0 as i128,
                            sx_den: q.1 as i128,
                            sy_num: q.2 as i128,
                            sy_den: q.3 as i128,
                        },
                    ),
                    None => None,
                }
            },
        },
    }
}

/// The metrics in force inside a start tag: the root `svg` element
/// establishes them once; every other tag sees them unchanged.
pub open spec fn metrics_in_tag(st: EngineState, doc: Seq<u8>, ts: int, te: int) -> Option<
    SvgMetrics,
> {
    if !st.metrics_done && spec_is_svg_tag(doc, ts, te) {
        spec_tag_metrics(doc, ts, te)
    } else {
        st.metrics
    }
}

/// Whether an identifier value begins with the given prefix.
pub open spec fn id_has_prefix(idval: Seq<u8>, pat: Seq<u8>) -> bool {
    idval.len() >= pat.len() && idval.subrange(0, pat.len() as int) == pat
}

/// Whether the tag `[ts, te)` is self-closing.
pub open spec fn spec_self_closing(doc: Seq<u8>, ts: int, te: int) -> bool {
    te - ts >= 2 && doc[te - 2] == 0x2f
}

/// The pixel size an image tag's declared width and height resolve to.
pub open spec fn spec_image_size_of_tag(
    doc: Seq<u8>,
    ts: int,
    te: int,
    m: Option<SvgMetrics>,
) -> Option<(int, int)> {
    match spec_find_attr(doc, ts, te, name_width_s()) {
        Some(w) => match crate::num::spec_parse_micro(doc.subrange(w.0, w.1)) {
            Some(wv) => match spec_find_attr(doc, ts, te, name_height_s()) {
                Some(h) => match crate::num::spec_parse_micro(doc.subrange(h.0, h.1)) {
                    Some(hv) => crate::metrics::spec_image_px(m, wv, hv),
                    None => None,
                },
                None => None,
            },
            None => None,
        },
        None => None,
    }
}

/// The image reference attribute of a tag: `href`, else `xlink:href`.
pub open spec fn spec_href_span(doc: Seq<u8>, ts: int, te: int) -> Option<(int, int)> {
    match spec_find_attr(doc, ts, te, name_href_s()) {
        Some(v) => Some(v),
        None => spec_find_attr(doc, ts, te, name_xlink_href_s()),
    }
}

/// The asset request a start tag makes, if any: its identifier, the
/// resolved pixel size, and the track color for the map image.
#[verifier::opaque]
pub open spec fn spec_image_request(
    doc: Seq<u8>,
    ts: int,
    te: int,
    m: Option<SvgMetrics>,
    color: Option<Rgba>,
) -> Option<(Seq<u8>, int, int, Option<Rgba>)> {
    match spec_find_attr(doc, ts, te, name_id_s()) {
        None => None,
        Some(sp) => {
            let idval = doc.subrange(sp.0, sp.1);
            if id_has_prefix(idval, prefix_value()) || idval
                == crate::context::key_path_elevation() {
                None
            } else if id_has_prefix(idval, prefix_image()) {
                match spec_image_size_of_tag(doc, ts, te, m) {
                    Some(sz) => Some(
                        (
                            idval,
                            sz.0,
                            sz.1,
                            if idval == crate::context::key_image_map() {
                                color
                            } else {
                                None
                            },
                        ),
                    ),
                    None => None,
                }
            } else {
                None
            }
        },
    }
}

/// Whether the logged event is exactly the request the tag makes: one
/// event, with the spec-computed identifier, pixel size and color, where a
/// request occurs; none anywhere else.
#[verifier::opaque]
pub open spec fn tag_event_ok(
    doc: Seq<u8>,
    ts: int,
    te: int,
    m: Option<SvgMetrics>,
    color: Option<Rgba>,
    ev: Option<ImgEvent>,
) -> bool {
    match spec_image_request(doc, ts, te, m, color) {
        Some(q) => ev is Some && ev->0.k == q.0 && ev->0.w_px as int == q.1 && ev->0.h_px as int
            == q.2 && ev->0.color == q.3,
        None => ev is None,
    }
}

/// The output and pending slot a start tag leaves behind, as a function of
/// the provider's response: an element without an identifier, or with an
/// unrecognized or unresolvable one, passes through unchanged; a
/// resolvable text placeholder passes through and arms the pending
/// replacement unless self-closing; the elevation path has exactly its
/// drawing attribute's value replaced by the synthesized profile; an image
/// placeholder whose size resolves has its reference attribute's value
/// replaced by the provider's response, and stays unchanged when the
/// provider answers nothing.
#[verifier::opaque]
pub open spec fn start_tag_out(
    doc: Seq<u8>,
    ts: int,
    te: int,
    ctx: Context,
    m: Option<SvgMetrics>,
    out_old: Seq<u8>,
    pend_old: Option<Seq<u8>>,
    resp: Option<Seq<u8>>,
) -> (Seq<u8>, Option<Seq<u8>>) {
    let verb = out_old + doc.subrange(ts, te);
    match spec_find_attr(doc, ts, te, name_id_s()) {
        None => (verb, pend_old),
        Some(sp) => {
            let idval = doc.subrange(sp.0, sp.1);
            if id_has_prefix(idval, prefix_value()) {
                match crate::context::spec_get_string(ctx, idval) {
                    Some(v) => (
                        verb,
                        if spec_self_closing(doc, ts, te) {
                            pend_old
                        } else {
                            Some(v)
                        },
                    ),
                    None => (verb, pend_old),
                }
            } else if idval == crate::context::key_path_elevation() {
                match ctx.data {
                    Some(d) => match spec_find_attr(doc, ts, te, name_d_s()) {
                        Some(ds) => match crate::path::spec_parse_inputpath(
                            doc.subrange(ds.0, ds.1),
                        ) {
                            Some(p) => (
                                out_old + doc.subrange(ts, ds.0) + crate::path::spec_elev_path(
                                    crate::track::profile_m(d.stats.profile@),
                                    d.stats.total_distance_mm as int,
                                    d.stats.elevation_min_mm as int,
                                    d.stats.elevation_max_mm as int,
                                    p.0,
                                    p.1,
                                    p.2,
                                    p.3,
                                ) + doc.subrange(ds.1, te),
                                pend_old,
                            ),
                            None => (verb, pend_old),
                        },
                        None => (verb, pend_old),
                    },
                    None => (verb, pend_old),
                }
            } else if id_has_prefix(idval, prefix_image()) {
                match spec_image_size_of_tag(doc, ts, te, m) {
                    Some(sz) => match resp {
                        Some(href) => match spec_href_span(doc, ts, te) {
                            Some(hs) => (
                                out_old + doc.subrange(ts, hs.0) + href + doc.subrange(hs.1, te),
                                pend_old,
                            ),
                            None => (verb, pend_old),
                        },
                        None => (verb, pend_old),
                    },
                    None => (verb, pend_old),
                }
            } else {
                (verb, pend_old)
            }
        },
    }
}

/// One token of the pass as a function of the state and the provider's
/// response: verbatim copying, the pending replacement consuming the next
/// non-whitespace text run, and the start-tag rewrites, with the root
/// `svg` element establishing the metrics.
#[verifier::opaque]
pub open spec fn engine_step_f(
    doc: Seq<u8>,
    tok: Tok,
    ctx: Context,
    st: EngineState,
    resp: Option<Seq<u8>>,
) -> EngineState {
    let ts = tok.start as int;
    let te = tok.end as int;
    match tok.kind {
        TokKind::Other => EngineState { out: st.out + doc.subrange(ts, te), ..st },
        TokKind::Text => if st.pending is Some && spec_has_non_ws(doc, ts, te) {
            EngineState { out: st.out + st.pending->0, pending: None, ..st }
        } else {
            EngineState { out: st.out + doc.subrange(ts, te), ..st }
        },
        TokKind::Start => {
            let m1 = metrics_in_tag(st, doc, ts, te);
            let d1 = if !st.metrics_done && spec_is_svg_tag(doc, ts, te) {
                true
            } else {
                st.metrics_done
            };
            let o = start_tag_out(doc, ts, te, ctx, m1, st.out, st.pending, resp);
            EngineState { out: o.0, pending: o.1, metrics: m1, metrics_done: d1 }
        },
    }
}

/// The state after the first `t` tokens, given the log of provider
/// responses.
#[verifier::opaque]
pub open spec fn engine_state_at(
    doc: Seq<u8>,
    toks: Seq<Tok>,
    t: int,
    ctx: Context,
    evs: Seq<Option<ImgEvent>>,
) -> EngineState
    decreases t,
{
    if t <= 0 {
        engine_init()
    } else {
        engine_step_f(
            doc,
            toks[t - 1],
            ctx,
            engine_state_at(doc, toks, t - 1, ctx, evs),
            resp_of(evs[t - 1]),
        )
    }
}

/// The pass starts in the initial state.
pub proof fn lemma_state_at_zero(
    doc: Seq<u8>,
    toks: Seq<Tok>,
    ctx: Context,
    evs: Seq<Option<ImgEvent>>,
)
    ensures
        engine_state_at(doc, toks, 0, ctx, evs) == engine_init(),
{
    reveal(engine_state_at);
}

/// One unfolding of the state recursion.
pub proof fn lemma_state_at_step(
    doc: Seq<u8>,
    toks: Seq<Tok>,
    t: int,
    ctx: Context,
    evs: Seq<Option<ImgEvent>>,
)
    requires
        t >= 1,
    ensures
        engine_state_at(doc, toks, t, ctx, evs) == engine_step_f(
            doc,
            toks[t - 1],
            ctx,
            engine_state_at(doc, toks, t - 1, ctx, evs),
            resp_of(evs[t - 1]),
        ),
{
    reveal(engine_state_at);
}

/// The state after `t` tokens reads only the first `t` log entries.
pub proof fn lemma_state_at_prefix(
    doc: Seq<u8>,
    toks: Seq<Tok>,
    t: int,
    ctx: Context,
    evs1: Seq<Option<ImgEvent>>,
    evs2: Seq<Option<ImgEvent>>,
)
    requires
        0 <= t,
        t <= evs1.len(),
        t <= evs2.len(),
        evs1.subrange(0, t) == evs2.subrange(0, t),
    ensures
        engine_state_at(doc, toks, t, ctx, evs1) == engine_state_at(doc, toks, t, ctx, evs2),
    decreases t,
{
    reveal(engine_state_at);
    if t > 0 {
        assert(evs1.subrange(0, t - 1) =~= evs2.subrange(0, t - 1)) by {
            assert(forall|j: int|
                0 <= j < t - 1 ==> evs1.subrange(0, t)[j] == #[trigger] evs1.subrange(0, t - 1)[j]
                    && evs2.subrange(0, t)[j] == evs2.subrange(0, t - 1)[j]);
        }
        lemma_state_at_prefix(doc, toks, t - 1, ctx, evs1, evs2);
        assert(evs1[t - 1] == evs2[t - 1]) by {
            assert(evs1.subrange(0, t)[t - 1] == evs1[t - 1]);
            assert(evs2.subrange(0, t)[t - 1] == evs2[t - 1]);
        }
    }
}

/// Whether the event logged at position `j` is exactly the request its
/// token makes, in the state the pass had reached there.
#[verifier::opaque]
pub open spec fn event_at_ok(
    doc: Seq<u8>,
    toks: Seq<Tok>,
    ctx: Context,
    color: Option<Rgba>,
    evs: Seq<Option<ImgEvent>>,
    j: int,
) -> bool {
    let st = engine_state_at(doc, toks, j, ctx, evs);
    let tok = toks[j];
    match tok.kind {
        TokKind::Start => tag_event_ok(
            doc,
            tok.start as int,
            tok.end as int,
            metrics_in_tag(st, doc, tok.start as int, tok.end as int),
            color,
            evs[j],
        ),
        _ => evs[j] is None,
    }
}

/// Whether every logged event is exactly the request its token makes, in
/// the state the pass had reached there.
pub open spec fn events_wf(
    doc: Seq<u8>,
    toks: Seq<Tok>,
    ctx: Context,
    color: Option<Rgba>,
    evs: Seq<Option<ImgEvent>>,
) -> bool {
    &&& evs.len() == toks.len()
    &&& forall|t: int| 0 <= t < toks.len() ==> #[trigger] event_at_ok(doc, toks, ctx, color, evs, t)
}

/// Extending the log by the event of token `t` keeps every settled entry
/// and advances the state by one engine step.
pub proof fn lemma_log_extend(
    doc: Seq<u8>,
    toks: Seq<Tok>,
    t: int,
    ctx: Context,
    color: Option<Rgba>,
    evs: Seq<Option<ImgEvent>>,
    gev: Option<ImgEvent>,
)
    requires
        0 <= t < toks.len(),
        evs.len() == t,
        forall|j: int| 0 <= j < t ==> #[trigger] event_at_ok(doc, toks, ctx, color, evs, j),
        ({
            let st = engine_state_at(doc, toks, t, ctx, evs);
            let tok = toks[t];
            match tok.kind {
                TokKind::Start => tag_event_ok(
                    doc,
                    tok.start as int,
                    tok.end as int,
                    metrics_in_tag(st, doc, tok.start as int, tok.end as int),
                    color,
                    gev,
                ),
                _ => gev is None,
            }
        }),
    ensures
        ({
            let evs2 = evs.push(gev);
            &&& engine_state_at(doc, toks, t, ctx, evs2) == engine_state_at(doc, toks, t, ctx, evs)
            &&& engine_state_at(doc, toks, t + 1, ctx, evs2) == engine_step_f(
                doc,
                toks[t],
                ctx,
                engine_state_at(doc, toks, t, ctx, evs),
                resp_of(gev),
            )
            &&& forall|j: int|
                0 <= j < t + 1 ==> #[trigger] event_at_ok(doc, toks, ctx, color, evs2, j)
        }),
{
    let evs2 = evs.push(gev);
    assert(evs2.subrange(0, t) =~= evs);
    assert(evs.subrange(0, t) =~= evs);
    lemma_state_at_prefix(doc, toks, t, ctx, evs, evs2);
    lemma_state_at_step(doc, toks, t + 1, ctx, evs2);
    assert(evs2[t] == gev);
    assert forall|j: int| 0 <= j < t + 1 implies #[trigger] event_at_ok(
        doc,
        toks,
        ctx,
        color,
        evs2,
        j,
    ) by {
        reveal(event_at_ok);
        if j < t {
            assert(event_at_ok(doc, toks, ctx, color, evs, j));
            assert(evs2[j] == evs[j]);
            assert(evs.subrange(0, j) =~= evs2.subrange(0, j));
            lemma_state_at_prefix(doc, toks, j, ctx, evs, evs2);
        }
    }
}

/// What a successful pass returns: the document's tokens folded through
/// the step function from the initial state, under some log of provider
/// responses whose requests are exactly the ones the tags make, with the
/// track color extracted up front.
pub open spec fn engine_result_ok(
    doc: Seq<u8>,
    ctx: Context,
    evs: Seq<Option<ImgEvent>>,
    out: Seq<u8>,
) -> bool {
    let toks = crate::tok::spec_tokens(doc);
    let color = tok_color(doc, toks, 0);
    &&& events_wf(doc, toks, ctx, color, evs)
    &&& out == engine_state_at(doc, toks, toks.len() as int, ctx, evs).out
}

/// Whether the start tag `[ts, te)` opens an `svg` element.
fn is_svg_tag(doc: &[u8], ts: usize, te: usize) -> (r: bool)
    requires
        ts < te <= doc@.len(),
    ensures
        r == spec_is_svg_tag(doc@, ts as int, te as int),
{
    if te - ts < 5 {
        return false;
    }
    let b = doc[ts + 4];
    doc[ts + 1] == 0x73 && doc[ts + 2] == 0x76 && doc[ts + 3] == 0x67 && (crate::bytes::ws_byte(b)
        || b == 0x3e || b == 0x2f)
}

/// Builds the document metrics from the root element's attributes, when
/// its width and height parse.
fn try_svg_metrics(doc: &[u8], ts: usize, te: usize) -> (r: Option<SvgMetrics>)
    requires
        ts <= te <= doc@.len(),
    ensures
        r is Some ==> crate::metrics::metrics_wf(r->0),
        r == spec_tag_metrics(doc@, ts as int, te as int),
{
    proof {
        reveal(spec_tag_metrics);
    }
    let w = match find_attr(doc, ts, te, name_width().as_slice()) {
        Some(v) => copy_range(doc, v.0, v.1),
        None => {
            return None;
        },
    };
    let h = match find_attr(doc, ts, te, name_height().as_slice()) {
        Some(v) => copy_range(doc, v.0, v.1),
        None => {
            return None;
        },
    };
    match find_attr(doc, ts, te, name_viewbox().as_slice()) {
        Some(v) => {
            let vb = copy_range(doc, v.0, v.1);
            crate::metrics::build_metrics(w.as_slice(), h.as_slice(), Some(vb.as_slice()))
        },
        None => crate::metrics::build_metrics(w.as_slice(), h.as_slice(), None),
    }
}

/// Handles one element start tag: the output and pending slot it leaves
/// are exactly `start_tag_out` of the provider's logged response, and the
/// logged event is exactly the request the tag makes. A document with no
/// marker is never altered.
#[verifier::rlimit(100)]
#[verifier::spinoff_prover]
fn process_start_tag<A: AssetProvider>(
    doc: &[u8],
    ts: usize,
    te: usize,
    ctx: &Context,
    assets: &mut A,
    metrics: &Option<SvgMetrics>,
    color: Option<Rgba>,
    out: &mut Vec<u8>,
    pending: &mut Option<Vec<u8>>,
) -> (gev: Ghost<Option<ImgEvent>>)
    requires
        ts < te <= doc@.len(),
        ctx.wf(),
        match metrics {
            Some(m) => crate::metrics::metrics_wf(*m),
            None => true,
        },
    ensures
        has_marker(doc@) || (final(out)@ == old(out)@ + doc@.subrange(ts as int, te as int)
            && *final(pending) == *old(pending)),
        ({
            let o = start_tag_out(
                doc@,
                ts as int,
                te as int,
                *ctx,
                *metrics,
                old(out)@,
                pend_view(*old(pending)),
                resp_of(gev@),
            );
            final(out)@ == o.0 && pend_view(*final(pending)) == o.1
        }),
        tag_event_ok(doc@, ts as int, te as int, *metrics, color, gev@),
{
    proof {
        reveal(start_tag_out);
        reveal(tag_event_ok);
        reveal(spec_image_request);
    }
    let idname = name_id();
    let (vs, ve) = match find_attr(doc, ts, te, idname.as_slice()) {
        Some(v) => v,
        None => {
            crate::bytes::push_range(out, doc, ts, te);
            return Ghost(None);
        },
    };
    proof {
        lemma_spec_find_attr(doc@, ts as int, te as int, idname@);
        assert(doc@[vs - 4] == 0x69 && doc@[vs - 3] == 0x64) by {
            assert(doc@.subrange(vs - 4, vs - 2) == idname@);
            assert(doc@.subrange(vs - 4, vs - 2)[0] == doc@[vs - 4]);
            assert(doc@.subrange(vs - 4, vs - 2)[1] == doc@[vs - 3]);
        }
    }
    let idv = copy_range(doc, vs, ve);
    let pv = prefix_value_b();
    if crate::bytes::bytes_starts_with(idv.as_slice(), pv.as_slice()) {
        proof {
            assert(doc@.subrange(vs as int, vs + prefix_value().len()) == prefix_value()) by {
                assert(idv@.subrange(0, prefix_value().len() as int) == prefix_value());
                assert(doc@.subrange(vs as int, vs + prefix_value().len()) =~= idv@.subrange(
                    0,
                    prefix_value().len() as int,
                ));
            }
            lemma_marker_from_attr(doc@, vs as int, ve as int, prefix_value());
        }
        match ctx.get_string(idv.as_slice()) {
            Some(v) => {
                let self_closing = te - ts >= 2 && doc[te - 2] == 0x2f;
                if !self_closing {
                    *pending = Some(v);
                }
                crate::bytes::push_range(out, doc, ts, te);
            },
            None => {
                crate::bytes::push_range(out, doc, ts, te);
            },
        }
        return Ghost(None);
    }
    let kpe = crate::context::key_path_elevation_b();
    if crate::bytes::bytes_eq(idv.as_slice(), kpe.as_slice()) {
        proof {
            assert(crate::context::key_path_elevation().subrange(0, prefix_path().len() as int)
                =~= prefix_path());
            assert(doc@.subrange(vs as int, vs + prefix_path().len()) == prefix_path()) by {
                assert(doc@.subrange(vs as int, vs + prefix_path().len()) =~= idv@.subrange(
                    0,
                    prefix_path().len() as int,
                ));
            }
            lemma_marker_from_attr(doc@, vs as int, ve as int, prefix_path());
        }
        match &ctx.data {
            Some(d) => {
                let dname = name_d();
                match find_attr(doc, ts, te, dname.as_slice()) {
                    Some((dvs, dve)) => {
                        let dv = copy_range(doc, dvs, dve);
                        match crate::path::InputPath::new(dv.as_slice()) {
                            Ok(inp) => {
                                let nd = crate::path::build_elevation_path(
                                    &d.stats.profile,
                                    d.stats.total_distance_mm,
                                    d.stats.elevation_min_mm,
                                    d.stats.elevation_max_mm,
                                    &inp,
                                );
                                crate::bytes::push_range(out, doc, ts, dvs);
                                crate::bytes::push_all(out, nd.as_slice());
                                crate::bytes::push_range(out, doc, dve, te);
                            },
                            Err(_) => {
                                crate::bytes::push_range(out, doc, ts, te);
                            },
                        }
                    },
                    None => {
                        crate::bytes::push_range(out, doc, ts, te);
                    },
                }
            },
            None => {
                crate::bytes::push_range(out, doc, ts, te);
            },
        }
        return Ghost(None);
    }
    let pi = prefix_image_b();
    if crate::bytes::bytes_starts_with(idv.as_slice(), pi.as_slice()) {
        proof {
            assert(doc@.subrange(vs as int, vs + prefix_image().len()) == prefix_image()) by {
                assert(idv@.subrange(0, prefix_image().len() as int) == prefix_image());
                assert(doc@.subrange(vs as int, vs + prefix_image().len()) =~= idv@.subrange(
                    0,
                    prefix_image().len() as int,
                ));
            }
            lemma_marker_from_attr(doc@, vs as int, ve as int, prefix_image());
        }
        let wv: i64 = match find_attr(doc, ts, te, name_width().as_slice()) {
            Some(v) => {
                let b = copy_range(doc, v.0, v.1);
                match crate::num::parse_micro(b.as_slice()) {
                    Some(x) => x,
                    None => {
                        crate::bytes::push_range(out, doc, ts, te);
                        return Ghost(None);
                    },
                }
            },
            None => {
                crate::bytes::push_range(out, doc, ts, te);
                return Ghost(None);
            },
        };
        let hv: i64 = match find_attr(doc, ts, te, name_height().as_slice()) {
            Some(v) => {
                let b = copy_range(doc, v.0, v.1);
                match crate::num::parse_micro(b.as_slice()) {
                    Some(x) => x,
                    None => {
                        crate::bytes::push_range(out, doc, ts, te);
                        return Ghost(None);
                    },
                }
            },
            None => {
                crate::bytes::push_range(out, doc, ts, te);
                return Ghost(None);
            },
        };
        let (wp, hp) = match crate::metrics::image_pixel_size(metrics.as_ref(), wv, hv) {
            Some(v) => v,
            None => {
                crate::bytes::push_range(out, doc, ts, te);
                return Ghost(None);
            },
        };
        let kim = crate::context::key_image_map_b();
        let col: Option<Rgba> = if crate::bytes::bytes_eq(idv.as_slice(), kim.as_slice()) {
            color
        } else {
            None
        };
        let resp = assets.get_image(idv.as_slice(), wp, hp, col);
        let ghost gevv: Option<ImgEvent> = Some(
            ImgEvent { k: idv@, w_px: wp, h_px: hp, color: col, resp: pend_view(resp) },
        );
        let href = match resp {
            Some(h) => h,
            None => {
                crate::bytes::push_range(out, doc, ts, te);
                return Ghost(gevv);
            },
        };
        let hname = name_href();
        let hspan = match find_attr(doc, ts, te, hname.as_slice()) {
            Some(v) => Some(v),
            None => {
                let xname = name_xlink_href();
                find_attr(doc, ts, te, xname.as_slice())
            },
        };
        match hspan {
            Some((hvs, hve)) => {
                crate::bytes::push_range(out, doc, ts, hvs);
                crate::bytes::push_all(out, href.as_slice());
                crate::bytes::push_range(out, doc, hve, te);
            },
            None => {
                crate::bytes::push_range(out, doc, ts, te);
            },
        }
        return Ghost(gevv);
    }
    crate::bytes::push_range(out, doc, ts, te);
    Ghost(None)
}

/// Whether a token is the designated track-line element: a start tag whose
/// identifier is the elevation path's.
#[verifier::opaque]
pub open spec fn tok_is_elev_path(doc: Seq<u8>, t: Tok) -> bool {
    &&& t.kind == TokKind::Start
    &&& match spec_find_attr(doc, t.start as int, t.end as int, seq![0x69u8, 0x64u8]) {
        Some(v) => doc.subrange(v.0, v.1) == crate::context::key_path_elevation(),
        None => false,
    }
}

/// The track-line color of one element: its stroke attribute's hex color,
/// else the stroke declaration of its inline style.
#[verifier::opaque]
pub open spec fn tok_stroke_color(doc: Seq<u8>, t: Tok) -> Option<Rgba> {
    let stroke = seq![0x73u8, 0x74u8, 0x72u8, 0x6fu8, 0x6bu8, 0x65u8];
    let style = seq![0x73u8, 0x74u8, 0x79u8, 0x6cu8, 0x65u8];
    let from_stroke = match spec_find_attr(doc, t.start as int, t.end as int, stroke) {
        Some(v) => crate::color::spec_hex_color(doc.subrange(v.0, v.1)),
        None => None,
    };
    if from_stroke is Some {
        from_stroke
    } else {
        match spec_find_attr(doc, t.start as int, t.end as int, style) {
            Some(v) => crate::color::spec_style_stroke_color(doc.subrange(v.0, v.1)),
            None => None,
        }
    }
}

/// The template's track-line color: read once from the first designated
/// element in document order.
pub open spec fn tok_color(doc: Seq<u8>, toks: Seq<Tok>, t: int) -> Option<Rgba>
    decreases toks.len() - t,
{
    if t < 0 || t >= toks.len() {
        None
    } else if tok_is_elev_path(doc, toks[t]) {
        tok_stroke_color(doc, toks[t])
    } else {
        tok_color(doc, toks, t + 1)
    }
}

/// The name bytes `stroke`.
fn name_stroke() -> (r: Vec<u8>)
    ensures
        r@ == seq![0x73u8, 0x74u8, 0x72u8, 0x6fu8, 0x6bu8, 0x65u8],
{
    let v: Vec<u8> = vec![0x73u8, 0x74u8, 0x72u8, 0x6fu8, 0x6bu8, 0x65u8];
    assert(v@ =~= seq![0x73u8, 0x74u8, 0x72u8, 0x6fu8, 0x6bu8, 0x65u8]);
    v
}

/// The name bytes `style`.
fn name_style() -> (r: Vec<u8>)
    ensures
        r@ == seq![0x73u8, 0x74u8, 0x79u8, 0x6cu8, 0x65u8],
{
    let v: Vec<u8> = vec![0x73u8, 0x74u8, 0x79u8, 0x6cu8, 0x65u8];
    assert(v@ =~= seq![0x73u8, 0x74u8, 0x79u8, 0x6cu8, 0x65u8]);
    v
}

fn tok_stroke_color_x(doc: &[u8], t: Tok) -> (r: Option<Rgba>)
    requires
        t.start < t.end <= doc@.len(),
    ensures
        r == tok_stroke_color(doc@, t),
{
    proof {
        reveal(tok_stroke_color);
    }
    let sname = name_stroke();
    let from_stroke: Option<Rgba> = match find_attr(doc, t.start, t.end, sname.as_slice()) {
        Some(v) => {
            let b = copy_range(doc, v.0, v.1);
            crate::color::parse_hex_color(b.as_slice())
        },
        None => None,
    };
    match from_stroke {
        Some(c) => Some(c),
        None => {
            let yname = name_style();
            match find_attr(doc, t.start, t.end, yname.as_slice()) {
                Some(v) => {
                    let b = copy_range(doc, v.0, v.1);
                    crate::color::parse_style_stroke_color(b.as_slice())
                },
                None => None,
            }
        },
    }
}

/// Scans the whole document once for the designated track-line element and
/// reads its stroke color.
#[verifier::rlimit(100)]
#[verifier::spinoff_prover]
#[verifier::loop_isolation(false)]
pub fn extract_track_color(doc: &[u8], toks: &Vec<Tok>) -> (r: Option<Rgba>)
    requires
        chain_pos(doc@, toks@),
    ensures
        r == tok_color(doc@, toks@, 0),
{
    proof {
        reveal(tok_is_elev_path);
    }
    let mut t: usize = 0;
    while t < toks.len()
        invariant
            0 <= t <= toks@.len(),
            tok_color(doc@, toks@, 0) == tok_color(doc@, toks@, t as int),
        decreases toks@.len() - t,
    {
        let tok = toks[t];
        if matches!(tok.kind, TokKind::Start) {
            let idname = name_id();
            let is_elev: bool = match find_attr(doc, tok.start, tok.end, idname.as_slice()) {
                Some(v) => {
                    let b = copy_range(doc, v.0, v.1);
                    let kpe = crate::context::key_path_elevation_b();
                    crate::bytes::bytes_eq(b.as_slice(), kpe.as_slice())
                },
                None => false,
            };
            if is_elev {
                assert(tok_is_elev_path(doc@, tok));
                return tok_stroke_color_x(doc, tok);
            }
            assert(!tok_is_elev_path(doc@, tok));
        } else {
            assert(!tok_is_elev_path(doc@, tok));
        }
        t = t + 1;
    }
    None
}

/// Handles one token of the pass: the state it leaves is exactly one step
/// of the engine's step function on the logged provider response, and the
/// logged event is exactly the request the token makes.
#[verifier::rlimit(100)]
#[verifier::spinoff_prover]
fn step_token<A: AssetProvider>(
    doc: &[u8],
    tok: Tok,
    ctx: &Context,
    assets: &mut A,
    metrics: &mut Option<SvgMetrics>,
    metrics_done: &mut bool,
    color: Option<Rgba>,
    out: &mut Vec<u8>,
    pending: &mut Option<Vec<u8>>,
) -> (gev: Ghost<Option<ImgEvent>>)
    requires
        tok.start < tok.end <= doc@.len(),
        ctx.wf(),
        match *old(metrics) {
            Some(m) => crate::metrics::metrics_wf(m),
            None => true,
        },
        (*old(pending)) is Some ==> has_marker(doc@),
    ensures
        match *final(metrics) {
            Some(m) => crate::metrics::metrics_wf(m),
            None => true,
        },
        !has_marker(doc@) ==> final(out)@ == old(out)@ + doc@.subrange(
            tok.start as int,
            tok.end as int,
        ),
        *final(pending) is Some ==> has_marker(doc@),
        ({
            let st0 = EngineState {
                out: old(out)@,
                pending: pend_view(*old(pending)),
                metrics: *old(metrics),
                metrics_done: *old(metrics_done),
            };
            let st1 = engine_step_f(doc@, tok, *ctx, st0, resp_of(gev@));
            &&& final(out)@ == st1.out
            &&& pend_view(*final(pending)) == st1.pending
            &&& *final(metrics) == st1.metrics
            &&& *final(metrics_done) == st1.metrics_done
            &&& match tok.kind {
                TokKind::Start => tag_event_ok(
                    doc@,
                    tok.start as int,
                    tok.end as int,
                    metrics_in_tag(st0, doc@, tok.start as int, tok.end as int),
                    color,
                    gev@,
                ),
                _ => gev@ is None,
            }
        }),
{
    proof {
        reveal(engine_step_f);
    }
    let ts = tok.start;
    let te = tok.end;
    match tok.kind {
        TokKind::Other => {
            crate::bytes::push_range(out, doc, ts, te);
            Ghost(None)
        },
        TokKind::Text => {
            let had: bool = match pending {
                Some(_) => true,
                None => false,
            };
            if had && has_non_ws(doc, ts, te) {
                let mut taken: Option<Vec<u8>> = None;
                core::mem::swap(pending, &mut taken);
                match taken {
                    Some(v) => {
                        crate::bytes::push_all(out, v.as_slice());
                    },
                    None => {},
                }
            } else {
                crate::bytes::push_range(out, doc, ts, te);
            }
            Ghost(None)
        },
        TokKind::Start => {
            if !*metrics_done && is_svg_tag(doc, ts, te) {
                *metrics = try_svg_metrics(doc, ts, te);
                *metrics_done = true;
            }
            process_start_tag(doc, ts, te, ctx, assets, metrics, color, out, pending)
        },
    }
}

/// Rewrites the document in one forward pass: text placeholders resolve
/// through the context's formatted values, the elevation path through the
/// synthesized profile geometry, image placeholders through the asset
/// provider; everything unrecognized or unresolved is copied through byte
/// for byte. Fails exactly when the document does not scan. On success the
/// output is the document's tokens folded through the engine's step
/// function under some log of provider responses whose requests are
/// exactly the ones the tags make; a document with no recognized
/// identifier comes back byte-identical.
#[verifier::rlimit(100)]
#[verifier::spinoff_prover]
pub fn substitute<A: AssetProvider>(doc: &Vec<u8>, ctx: &Context, assets: &mut A) -> (r: Result<
    Vec<u8>,
    TemplateError,
>)
    requires
        ctx.wf(),
    ensures
        r is Ok <==> scan_ok(doc@, 0),
        r is Ok && !has_marker(doc@) ==> r->Ok_0@ == doc@,
        r is Ok ==> exists|evs: Seq<Option<ImgEvent>>|
            engine_result_ok(doc@, *ctx, evs, r->Ok_0@),
{
    let toks = match crate::tok::tokenize(doc.as_slice()) {
        Ok(t) => t,
        Err(e) => {
            return Err(e);
        },
    };
    proof {
        crate::tok::lemma_chain_pos(doc@, toks@);
    }
    let color = extract_track_color(doc.as_slice(), &toks);
    let mut metrics: Option<SvgMetrics> = None;
    let mut metrics_done: bool = false;
    let mut out: Vec<u8> = Vec::new();
    let mut pending: Option<Vec<u8>> = None;
    let ghost mut evs: Seq<Option<ImgEvent>> = Seq::empty();
    let mut t: usize = 0;
    proof {
        lemma_state_at_zero(doc@, toks@, *ctx, evs);
    }
    while t < toks.len()
        invariant
            0 <= t <= toks@.len(),
            chain_pos(doc@, toks@),
            ctx.wf(),
            !has_marker(doc@) ==> out@ == doc@.subrange(
                0,
                if t == 0 {
                    0int
                } else {
                    toks@[t - 1].end as int
                },
            ),
            pending is Some ==> has_marker(doc@),
            match metrics {
                Some(m) => crate::metrics::metrics_wf(m),
                None => true,
            },
            evs.len() == t as int,
            ({
                let st = engine_state_at(doc@, toks@, t as int, *ctx, evs);
                &&& out@ == st.out
                &&& pend_view(pending) == st.pending
                &&& metrics == st.metrics
                &&& metrics_done == st.metrics_done
            }),
            forall|j: int|
                0 <= j < t as int ==> #[trigger] event_at_ok(doc@, toks@, *ctx, color, evs, j),
        decreases toks@.len() - t,
    {
        let tok = toks[t];
        let ghost cur: int = if t == 0 {
            0int
        } else {
            toks@[t - 1].end as int
        };
        assert(tok.start as int == cur);
        let ghost st0 = EngineState {
            out: out@,
            pending: pend_view(pending),
            metrics,
            metrics_done,
        };
        proof {
            assert(st0 =~= engine_state_at(doc@, toks@, t as int, *ctx, evs));
        }
        let gev = step_token(
            doc.as_slice(),
            tok,
            ctx,
            assets,
            &mut metrics,
            &mut metrics_done,
            color,
            &mut out,
            &mut pending,
        );
        proof {
            if !has_marker(doc@) {
                assert(out@ =~= doc@.subrange(0, tok.end as int));
            }
            lemma_log_extend(doc@, toks@, t as int, *ctx, color, evs, gev@);
            evs = evs.push(gev@);
        }
        t = t + 1;
    }
    proof {
        if !has_marker(doc@) {
            if toks@.len() == 0 {
                assert(doc@.len() == 0);
                assert(out@ =~= doc@);
            } else {
                assert(toks@[toks@.len() - 1].end == doc@.len());
                assert(out@ =~= doc@) by {
                    assert(out@ == doc@.subrange(0, doc@.len() as int));
                    assert(doc@.subrange(0, doc@.len() as int) =~= doc@);
                }
            }
        }
        assert(toks@ == crate::tok::spec_tokens(doc@));
        assert(color == tok_color(doc@, crate::tok::spec_tokens(doc@), 0));
        assert(events_wf(doc@, toks@, *ctx, color, evs));
        assert(out@ == engine_state_at(doc@, toks@, toks@.len() as int, *ctx, evs).out);
        assert(engine_result_ok(doc@, *ctx, evs, out@));
    }
    let r: Result<Vec<u8>, TemplateError> = Ok(out);
    proof {
        assert(engine_result_ok(doc@, *ctx, evs, r->Ok_0@));
    }
    r
}

} // verus!

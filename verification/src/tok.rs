//! The markup tokenizer: splits a document into tags, text runs, and the
//! comment, declaration and processing-instruction stretches that are
//! always copied through verbatim.
use vstd::prelude::*;

use crate::num::find_byte_from;
use crate::num::lemma_find_byte_from;

verus! {

/// The end of a start tag scanned from `p`, one past its closing `>`,
/// skipping quoted attribute values; nothing when the tag never closes.
pub open spec fn scan_tag_end(s: Seq<u8>, p: int, quote: Option<u8>) -> Option<int>
    decreases s.len() - p,
{
    if p < 0 || p >= s.len() {
        None
    } else {
        match quote {
            Some(q) => if s[p] == q {
                scan_tag_end(s, p + 1, None)
            } else {
                scan_tag_end(s, p + 1, quote)
            },
            None => if s[p] == 0x3e {
                Some(p + 1)
            } else if s[p] == 0x22 || s[p] == 0x27 {
                scan_tag_end(s, p + 1, Some(s[p]))
            } else {
                scan_tag_end(s, p + 1, None)
            },
        }
    }
}

pub proof fn lemma_scan_tag_end(s: Seq<u8>, p: int, quote: Option<u8>)
    requires
        0 <= p,
    ensures
        scan_tag_end(s, p, quote) is Some ==> p < scan_tag_end(s, p, quote)->0 <= s.len(),
    decreases s.len() - p,
{
    if 0 <= p < s.len() {
        lemma_scan_tag_end(s, p + 1, None);
        lemma_scan_tag_end(s, p + 1, quote);
        lemma_scan_tag_end(s, p + 1, Some(s[p]));
    }
}

/// The index one past the first occurrence of the three bytes from `p` on,
/// or nothing.
pub open spec fn scan_sub3_end(s: Seq<u8>, p: int, b0: u8, b1: u8, b2: u8) -> Option<int>
    decreases s.len() - p,
{
    if p < 0 || p + 3 > s.len() {
        None
    } else if s[p] == b0 && s[p + 1] == b1 && s[p + 2] == b2 {
        Some(p + 3)
    } else {
        scan_sub3_end(s, p + 1, b0, b1, b2)
    }
}

pub proof fn lemma_scan_sub3_end(s: Seq<u8>, p: int, b0: u8, b1: u8, b2: u8)
    requires
        0 <= p,
    ensures
        scan_sub3_end(s, p, b0, b1, b2) is Some ==> p < scan_sub3_end(s, p, b0, b1, b2)->0
            <= s.len(),
    decreases s.len() - p,
{
    if p + 3 <= s.len() && !(s[p] == b0 && s[p + 1] == b1 && s[p + 2] == b2) {
        lemma_scan_sub3_end(s, p + 1, b0, b1, b2);
    }
}

/// One past the next `>`, or nothing.
pub open spec fn scan_gt(s: Seq<u8>, p: int) -> Option<int> {
    let g = find_byte_from(s, p, 0x3e);
    if g < s.len() {
        Some(g + 1)
    } else {
        None
    }
}

pub open spec fn comment_open() -> Seq<u8> {
    seq![0x3cu8, 0x21u8, 0x2du8, 0x2du8]
}

pub open spec fn cdata_open() -> Seq<u8> {
    seq![0x3cu8, 0x21u8, 0x5bu8, 0x43u8, 0x44u8, 0x41u8, 0x54u8, 0x41u8, 0x5bu8]
}

/// The end of the token starting at `p`: a text run ends at the next `<`;
/// a comment at `-->`; a character-data section at `]]>`; a declaration,
/// processing instruction or closing tag at the next `>`; a start tag at
/// its closing `>` outside quoted values. Nothing when the token never
/// closes.
#[verifier::opaque]
pub open spec fn token_end(s: Seq<u8>, p: int) -> Option<int> {
    if s[p] != 0x3c {
        Some(find_byte_from(s, p + 1, 0x3c))
    } else if p + 1 >= s.len() {
        None
    } else if s[p + 1] == 0x21 {
        if p + 4 <= s.len() && s.subrange(p, p + 4) == comment_open() {
            scan_sub3_end(s, p + 4, 0x2d, 0x2d, 0x3e)
        } else if p + 9 <= s.len() && s.subrange(p, p + 9) == cdata_open() {
            scan_sub3_end(s, p + 9, 0x5d, 0x5d, 0x3e)
        } else {
            scan_gt(s, p + 2)
        }
    } else if s[p + 1] == 0x3f || s[p + 1] == 0x2f {
        scan_gt(s, p + 2)
    } else {
        scan_tag_end(s, p + 1, None)
    }
}

pub proof fn lemma_token_end_bounds(s: Seq<u8>, p: int)
    requires
        0 <= p < s.len(),
    ensures
        token_end(s, p) is Some ==> p < token_end(s, p)->0 <= s.len(),
{
    reveal(token_end);
    lemma_find_byte_from(s, p + 1, 0x3c);
    if p + 1 < s.len() {
        lemma_scan_sub3_end(s, p + 4, 0x2d, 0x2d, 0x3e);
        lemma_scan_sub3_end(s, p + 9, 0x5d, 0x5d, 0x3e);
        lemma_find_byte_from(s, p + 2, 0x3e);
        lemma_scan_tag_end(s, p + 1, None);
    }
}

#[derive(Clone, Copy, PartialEq, Eq, Structural, Debug)]
pub enum TokKind {
    /// A run of bytes between tags.
    Text,
    /// An element start tag, possibly self-closing.
    Start,
    /// A comment, declaration, processing instruction, character-data
    /// section or closing tag: always copied through verbatim.
    Other,
}

pub open spec fn token_kind(s: Seq<u8>, p: int) -> TokKind {
    if s[p] != 0x3c {
        TokKind::Text
    } else if p + 1 < s.len() && (s[p + 1] == 0x21 || s[p + 1] == 0x3f || s[p + 1] == 0x2f) {
        TokKind::Other
    } else {
        TokKind::Start
    }
}

/// Whether the whole document from `p` on splits into closed tokens.
#[verifier::opaque]
pub open spec fn scan_ok(s: Seq<u8>, p: int) -> bool
    decreases s.len() - p
    when 0 <= p <= s.len()
    via scan_ok_dec
{
    if p >= s.len() {
        true
    } else {
        match token_end(s, p) {
            None => false,
            Some(e) => scan_ok(s, e),
        }
    }
}

#[via_fn]
proof fn scan_ok_dec(s: Seq<u8>, p: int) {
    if p < s.len() {
        lemma_token_end_bounds(s, p);
    }
}

/// One token: its kind and its byte span.
#[derive(Clone, Copy)]
pub struct Tok {
    pub kind: TokKind,
    pub start: usize,
    pub end: usize,
}

/// The token decomposition of the document from `p` on; it stops early
/// only where a token never closes, which `scan_ok` rules out.
#[verifier::opaque]
pub open spec fn spec_tokens_from(doc: Seq<u8>, p: int) -> Seq<Tok>
    decreases doc.len() - p
    when 0 <= p <= doc.len()
    via spec_tokens_from_dec
{
    if p >= doc.len() {
        Seq::empty()
    } else {
        match token_end(doc, p) {
            None => Seq::empty(),
            Some(e) => seq![
                Tok { kind: token_kind(doc, p), start: p as usize, end: e as usize },
            ] + spec_tokens_from(doc, e),
        }
    }
}

#[via_fn]
proof fn spec_tokens_from_dec(doc: Seq<u8>, p: int) {
    if p < doc.len() {
        lemma_token_end_bounds(doc, p);
    }
}

/// One unfolding of the token decomposition at a closed token.
pub proof fn lemma_spec_tokens_step(doc: Seq<u8>, p: int, kind: TokKind, e: int)
    requires
        0 <= p < doc.len(),
        token_end(doc, p) == Some(e),
        kind == token_kind(doc, p),
    ensures
        spec_tokens_from(doc, p) == seq![
            Tok { kind, start: p as usize, end: e as usize },
        ] + spec_tokens_from(doc, e),
{
    reveal(spec_tokens_from);
    lemma_token_end_bounds(doc, p);
}

/// One unfolding of the scan at a closed token.
pub proof fn lemma_scan_ok_step(doc: Seq<u8>, p: int, e: int)
    requires
        0 <= p < doc.len(),
        0 <= e <= doc.len(),
        token_end(doc, p) == Some(e),
    ensures
        scan_ok(doc, p) == scan_ok(doc, e),
{
    reveal(scan_ok);
}

/// The scan fails where a token never closes.
pub proof fn lemma_scan_ok_none(doc: Seq<u8>, p: int)
    requires
        0 <= p < doc.len(),
        token_end(doc, p) is None,
    ensures
        !scan_ok(doc, p),
{
    reveal(scan_ok);
}

/// The scan of the empty tail succeeds.
pub proof fn lemma_scan_ok_end(doc: Seq<u8>, p: int)
    requires
        p == doc.len(),
    ensures
        scan_ok(doc, p),
{
    reveal(scan_ok);
}

/// The chain facts of the token decomposition of a document that scans.
#[verifier::rlimit(100)]
#[verifier::spinoff_prover]
pub proof fn lemma_spec_tokens_chain(doc: Seq<u8>, p: int)
    requires
        0 <= p <= doc.len(),
        doc.len() <= usize::MAX,
        scan_ok(doc, p),
    ensures
        ({
            let ts = spec_tokens_from(doc, p);
            &&& forall|i: int|
                0 <= i < ts.len() ==> {
                    let t = #[trigger] ts[i];
                    &&& t.start < t.end <= doc.len()
                    &&& token_end(doc, t.start as int) == Some(t.end as int)
                    &&& t.kind == token_kind(doc, t.start as int)
                    &&& t.start as int == if i == 0 {
                        p
                    } else {
                        ts[i - 1].end as int
                    }
                }
            &&& (ts.len() == 0 ==> p == doc.len())
            &&& (ts.len() > 0 ==> ts[ts.len() - 1].end == doc.len())
        }),
    decreases doc.len() - p,
{
    reveal(spec_tokens_from);
    reveal(scan_ok);
    if p < doc.len() {
        lemma_token_end_bounds(doc, p);
        let e = token_end(doc, p)->0;
        lemma_spec_tokens_chain(doc, e);
        let head = Tok { kind: token_kind(doc, p), start: p as usize, end: e as usize };
        let tail = spec_tokens_from(doc, e);
        let ts = spec_tokens_from(doc, p);
        assert(ts == seq![head] + tail);
        assert(ts[0] == head);
        assert(forall|i: int| 1 <= i < ts.len() ==> #[trigger] ts[i] == tail[i - 1]);
        assert forall|i: int| 0 <= i < ts.len() implies {
            let t = #[trigger] ts[i];
            &&& t.start < t.end <= doc.len()
            &&& token_end(doc, t.start as int) == Some(t.end as int)
            &&& t.kind == token_kind(doc, t.start as int)
            &&& t.start as int == if i == 0 {
                p
            } else {
                ts[i - 1].end as int
            }
        } by {
            if i > 0 {
                assert(ts[i] == tail[i - 1]);
                if i == 1 {
                    assert(tail[0].start as int == e);
                } else {
                    assert(ts[i - 1] == tail[i - 2]);
                }
            }
        }
        if tail.len() == 0 {
            assert(ts[ts.len() - 1] == head);
        } else {
            assert(ts[ts.len() - 1] == tail[tail.len() - 1]);
        }
    }
}

/// Splitting a pushed element off a concatenation.
pub proof fn lemma_push_concat<T>(a: Seq<T>, x: T, rest: Seq<T>)
    ensures
        a + (seq![x] + rest) == a.push(x) + rest,
{
    assert(a + (seq![x] + rest) =~= a.push(x) + rest);
}

/// The decomposition of the empty tail.
pub proof fn lemma_spec_tokens_end(doc: Seq<u8>, p: int)
    requires
        p == doc.len(),
    ensures
        spec_tokens_from(doc, p) == Seq::<Tok>::empty(),
{
    reveal(spec_tokens_from);
}

/// The token decomposition of the whole document.
pub open spec fn spec_tokens(doc: Seq<u8>) -> Seq<Tok> {
    spec_tokens_from(doc, 0)
}

/// The tokens cover the document exactly, in order, each closed where the
/// scan says and of the kind the scan says.
pub open spec fn chain_ok(doc: Seq<u8>, toks: Seq<Tok>) -> bool {
    &&& forall|i: int|
        0 <= i < toks.len() ==> {
            let t = #[trigger] toks[i];
            &&& t.start < t.end <= doc.len()
            &&& token_end(doc, t.start as int) == Some(t.end as int)
            &&& t.kind == token_kind(doc, t.start as int)
            &&& t.start as int == if i == 0 {
                0int
            } else {
                toks[i - 1].end as int
            }
        }
    &&& (toks.len() == 0 ==> doc.len() == 0)
    &&& (toks.len() > 0 ==> toks[toks.len() - 1].end == doc.len())
}

/// The positional part of the chain: spans are in order, contiguous, and
/// cover the document.
pub open spec fn chain_pos(doc: Seq<u8>, toks: Seq<Tok>) -> bool {
    &&& forall|i: int|
        0 <= i < toks.len() ==> {
            let t = #[trigger] toks[i];
            &&& t.start < t.end <= doc.len()
            &&& t.start as int == if i == 0 {
                0int
            } else {
                toks[i - 1].end as int
            }
        }
    &&& (toks.len() == 0 ==> doc.len() == 0)
    &&& (toks.len() > 0 ==> toks[toks.len() - 1].end == doc.len())
}

pub proof fn lemma_chain_pos(doc: Seq<u8>, toks: Seq<Tok>)
    requires
        chain_ok(doc, toks),
    ensures
        chain_pos(doc, toks),
{
}

#[derive(Debug)]
pub enum TemplateError {
    /// The document has an unterminated tag, comment, character-data
    /// section or processing instruction.
    Malformed,
}

#[verifier::loop_isolation(false)]
fn scan_tag_end_x(doc: &[u8], p: usize) -> (r: Option<usize>)
    requires
        p <= doc@.len(),
    ensures
        ({
            let sp = scan_tag_end(doc@, p as int, None);
            match r {
                Some(e) => sp == Some(e as int) && p < e <= doc@.len(),
                None => sp is None,
            }
        }),
{
    proof {
        lemma_scan_tag_end(doc@, p as int, None);
    }
    let mut i: usize = p;
    let mut quote: Option<u8> = None;
    while i < doc.len()
        invariant
            p <= i <= doc@.len(),
            scan_tag_end(doc@, p as int, None) == scan_tag_end(doc@, i as int, quote),
        decreases doc@.len() - i,
    {
        let c = doc[i];
        match quote {
            Some(q) => {
                if c == q {
                    quote = None;
                }
            },
            None => {
                if c == 0x3e {
                    return Some(i + 1);
                }
                if c == 0x22 || c == 0x27 {
                    quote = Some(c);
                }
            },
        }
        i = i + 1;
    }
    None
}

#[verifier::loop_isolation(false)]
fn scan_sub3_x(doc: &[u8], p: usize, b0: u8, b1: u8, b2: u8) -> (r: Option<usize>)
    requires
        p <= doc@.len(),
    ensures
        ({
            let sp = scan_sub3_end(doc@, p as int, b0, b1, b2);
            match r {
                Some(e) => sp == Some(e as int) && p < e <= doc@.len(),
                None => sp is None,
            }
        }),
{
    proof {
        lemma_scan_sub3_end(doc@, p as int, b0, b1, b2);
    }
    if doc.len() < 3 {
        return None;
    }
    let mut i: usize = p;
    while i <= doc.len() - 3
        invariant
            p <= i,
            i <= doc@.len(),
            scan_sub3_end(doc@, p as int, b0, b1, b2) == scan_sub3_end(doc@, i as int, b0, b1, b2),
        decreases doc@.len() - i,
    {
        if doc[i] == b0 && doc[i + 1] == b1 && doc[i + 2] == b2 {
            return Some(i + 3);
        }
        i = i + 1;
    }
    None
}

/// The end and kind of the token starting at `p`, or nothing when it never
/// closes.
pub fn next_token(doc: &[u8], p: usize) -> (r: Option<(TokKind, usize)>)
    requires
        p < doc@.len(),
    ensures
        match r {
            Some(v) => token_end(doc@, p as int) == Some(v.1 as int) && v.0 == token_kind(
                doc@,
                p as int,
            ) && p < v.1 <= doc@.len(),
            None => token_end(doc@, p as int) is None,
        },
{
    proof {
        reveal(token_end);
        lemma_token_end_bounds(doc@, p as int);
    }
    if doc[p] != 0x3c {
        let e = crate::num::find_byte(doc, p + 1, 0x3c);
        return Some((TokKind::Text, e));
    }
    if p + 1 >= doc.len() {
        return None;
    }
    let c1 = doc[p + 1];
    if c1 == 0x21 {
        if doc.len() - p >= 4 && doc[p + 2] == 0x2d && doc[p + 3] == 0x2d {
            assert(doc@.subrange(p as int, p as int + 4) =~= comment_open());
            let e = scan_sub3_x(doc, p + 4, 0x2d, 0x2d, 0x3e);
            return match e {
                Some(e) => Some((TokKind::Other, e)),
                None => None,
            };
        }
        proof {
            if p + 4 <= doc@.len() && doc@.subrange(p as int, p as int + 4) == comment_open() {
                assert(doc@[p as int + 2] == 0x2d && doc@[p as int + 3] == 0x2d);
            }
        }
        if doc.len() - p >= 9 && doc[p + 2] == 0x5b && doc[p + 3] == 0x43 && doc[p + 4] == 0x44
            && doc[p + 5] == 0x41 && doc[p + 6] == 0x54 && doc[p + 7] == 0x41 && doc[p + 8]
            == 0x5b {
            assert(doc@.subrange(p as int, p as int + 9) =~= cdata_open());
            let e = scan_sub3_x(doc, p + 9, 0x5d, 0x5d, 0x3e);
            return match e {
                Some(e) => Some((TokKind::Other, e)),
                None => None,
            };
        }
        proof {
            if p + 9 <= doc@.len() && doc@.subrange(p as int, p as int + 9) == cdata_open() {
                assert(doc@[p as int + 2] == 0x5b && doc@[p as int + 3] == 0x43);
            }
        }
        let g = crate::num::find_byte(doc, p + 2, 0x3e);
        if g < doc.len() {
            return Some((TokKind::Other, g + 1));
        }
        return None;
    }
    if c1 == 0x3f || c1 == 0x2f {
        let g = crate::num::find_byte(doc, p + 2, 0x3e);
        if g < doc.len() {
            return Some((TokKind::Other, g + 1));
        }
        return None;
    }
    match scan_tag_end_x(doc, p + 1) {
        Some(e) => Some((TokKind::Start, e)),
        None => None,
    }
}

/// Splits the document into its tokens. Succeeds exactly when every token
/// closes.
#[verifier::rlimit(100)]
#[verifier::spinoff_prover]
pub fn tokenize(doc: &[u8]) -> (r: Result<Vec<Tok>, TemplateError>)
    ensures
        match r {
            Ok(toks) => scan_ok(doc@, 0) && chain_ok(doc@, toks@) && toks@ == spec_tokens(doc@),
            Err(_) => !scan_ok(doc@, 0),
        },
{
    let mut toks: Vec<Tok> = Vec::new();
    let mut pos: usize = 0;
    proof {
        assert(Seq::<Tok>::empty() + spec_tokens_from(doc@, 0) =~= spec_tokens_from(doc@, 0));
    }
    while pos < doc.len()
        invariant
            0 <= pos <= doc@.len(),
            scan_ok(doc@, 0) == scan_ok(doc@, pos as int),
            spec_tokens(doc@) == toks@ + spec_tokens_from(doc@, pos as int),
        decreases doc@.len() - pos,
    {
        match next_token(doc, pos) {
            Some((kind, end)) => {
                let ghost tpre = toks@;
                toks.push(Tok { kind, start: pos, end });
                proof {
                    lemma_scan_ok_step(doc@, pos as int, end as int);
                    lemma_spec_tokens_step(doc@, pos as int, kind, end as int);
                    lemma_push_concat(
                        tpre,
                        Tok { kind, start: pos, end },
                        spec_tokens_from(doc@, end as int),
                    );
                }
                pos = end;
            },
            None => {
                proof {
                    lemma_scan_ok_none(doc@, pos as int);
                }
                return Err(TemplateError::Malformed);
            },
        }
    }
    proof {
        lemma_scan_ok_end(doc@, pos as int);
        lemma_spec_tokens_end(doc@, pos as int);
        assert(toks@ + spec_tokens_from(doc@, pos as int) =~= toks@);
        lemma_spec_tokens_chain(doc@, 0);
        assert(chain_ok(doc@, toks@));
    }
    Ok(toks)
}

} // verus!

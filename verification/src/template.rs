//! The template: a markup document plus the single-pass application of a
//! context and an asset provider to it.
use vstd::prelude::*;

use crate::context::Context;
use crate::engine::AssetProvider;
use crate::engine::ContextAssets;
use crate::engine::ImgEvent;
use crate::engine::engine_result_ok;
use crate::engine::has_marker;
use crate::engine::substitute;
use crate::tok::TemplateError;
use crate::tok::scan_ok;

verus! {

/// A designer-authored markup template.
pub struct Template {
    pub content: Vec<u8>,
}

impl Template {
    pub fn new(content: Vec<u8>) -> (r: Template)
        ensures
            r.content@ == content@,
    {
        Template { content }
    }

    /// Applies the context with the given asset provider. Fails exactly
    /// when the template does not scan; on success the output is the
    /// engine's token-by-token rewrite, and a template with no recognized
    /// identifier comes back byte-identical.
    pub fn apply_with<A: AssetProvider>(&self, ctx: &Context, assets: &mut A) -> (r: Result<
        Vec<u8>,
        TemplateError,
    >)
        requires
            ctx.wf(),
        ensures
            r is Ok <==> scan_ok(self.content@, 0),
            r is Ok && !has_marker(self.content@) ==> r->Ok_0@ == self.content@,
            r is Ok ==> exists|evs: Seq<Option<ImgEvent>>|
                engine_result_ok(self.content@, *ctx, evs, r->Ok_0@),
    {
        substitute(&self.content, ctx, assets)
    }

    /// Applies the context, serving image placeholders from the context's
    /// own memoized map asset.
    pub fn apply_context(&self, ctx: &Context) -> (r: Result<Vec<u8>, TemplateError>)
        requires
            ctx.wf(),
        ensures
            r is Ok <==> scan_ok(self.content@, 0),
            r is Ok && !has_marker(self.content@) ==> r->Ok_0@ == self.content@,
            r is Ok ==> exists|evs: Seq<Option<ImgEvent>>|
                engine_result_ok(self.content@, *ctx, evs, r->Ok_0@),
    {
        let mut assets = ContextAssets { ctx };
        substitute(&self.content, ctx, &mut assets)
    }
}

} // verus!

//! The built-in template: a plain portrait layout carrying one of each
//! placeholder kind.
use vstd::prelude::*;

verus! {

/// One built-in template: its name and its markup.
pub struct EmbeddedTemplate {
    /// Template name.
    pub name: Vec<u8>,
    /// Markup content.
    pub content: Vec<u8>,
}

/// The name of the built-in template.
pub open spec fn builtin_name() -> Seq<u8> {
    seq![0x70u8, 0x6cu8, 0x61u8, 0x69u8, 0x6eu8]
}

/// The markup of the built-in template.
pub open spec fn builtin_content() -> Seq<u8> {
    seq![0x3cu8, 0x73u8, 0x76u8, 0x67u8, 0x20u8, 0x77u8, 0x69u8, 0x64u8, 0x74u8, 0x68u8, 0x3du8, 0x22u8, 0x31u8, 0x30u8, 0x38u8, 0x30u8, 0x22u8, 0x20u8, 0x68u8, 0x65u8, 0x69u8, 0x67u8, 0x68u8, 0x74u8, 0x3du8, 0x22u8, 0x31u8, 0x39u8, 0x32u8, 0x30u8, 0x22u8, 0x20u8, 0x76u8, 0x69u8, 0x65u8, 0x77u8, 0x42u8, 0x6fu8, 0x78u8, 0x3du8, 0x22u8, 0x30u8, 0x20u8, 0x30u8, 0x20u8, 0x32u8, 0x37u8, 0x30u8, 0x20u8, 0x34u8, 0x38u8, 0x30u8, 0x22u8, 0x3eu8, 0x3cu8, 0x74u8, 0x65u8, 0x78u8, 0x74u8, 0x20u8, 0x69u8, 0x64u8, 0x3du8, 0x22u8, 0x76u8, 0x61u8, 0x6cu8, 0x75u8, 0x65u8, 0x5fu8, 0x74u8, 0x72u8, 0x61u8, 0x63u8, 0x6bu8, 0x5fu8, 0x6eu8, 0x61u8, 0x6du8, 0x65u8, 0x22u8, 0x3eu8, 0x6eu8, 0x61u8, 0x6du8, 0x65u8, 0x3cu8, 0x2fu8, 0x74u8, 0x65u8, 0x78u8, 0x74u8, 0x3eu8, 0x3cu8, 0x74u8, 0x65u8, 0x78u8, 0x74u8, 0x20u8, 0x69u8, 0x64u8, 0x3du8, 0x22u8, 0x76u8, 0x61u8, 0x6cu8, 0x75u8, 0x65u8, 0x5fu8, 0x64u8, 0x69u8, 0x73u8, 0x74u8, 0x61u8, 0x6eu8, 0x63u8, 0x65u8, 0x22u8, 0x3eu8, 0x30u8, 0x6bu8, 0x6du8, 0x3cu8, 0x2fu8, 0x74u8, 0x65u8, 0x78u8, 0x74u8, 0x3eu8, 0x3cu8, 0x74u8, 0x65u8, 0x78u8, 0x74u8, 0x20u8, 0x69u8, 0x64u8, 0x3du8, 0x22u8, 0x76u8, 0x61u8, 0x6cu8, 0x75u8, 0x65u8, 0x5fu8, 0x74u8, 0x69u8, 0x6du8, 0x65u8, 0x22u8, 0x3eu8, 0x30u8, 0x30u8, 0x3au8, 0x30u8, 0x30u8, 0x3au8, 0x30u8, 0x30u8, 0x3cu8, 0x2fu8, 0x74u8, 0x65u8, 0x78u8, 0x74u8, 0x3eu8, 0x3cu8, 0x70u8, 0x61u8, 0x74u8, 0x68u8, 0x20u8, 0x69u8, 0x64u8, 0x3du8, 0x22u8, 0x70u8, 0x61u8, 0x74u8, 0x68u8, 0x5fu8, 0x65u8, 0x6cu8, 0x65u8, 0x76u8, 0x61u8, 0x74u8, 0x69u8, 0x6fu8, 0x6eu8, 0x22u8, 0x20u8, 0x64u8, 0x3du8, 0x22u8, 0x6du8, 0x20u8, 0x31u8, 0x30u8, 0x2cu8, 0x34u8, 0x30u8, 0x30u8, 0x20u8, 0x32u8, 0x35u8, 0x30u8, 0x2cu8, 0x2du8, 0x31u8, 0x30u8, 0x30u8, 0x22u8, 0x20u8, 0x73u8, 0x74u8, 0x72u8, 0x6fu8, 0x6bu8, 0x65u8, 0x3du8, 0x22u8, 0x23u8, 0x32u8, 0x64u8, 0x62u8, 0x31u8, 0x39u8, 0x32u8, 0x22u8, 0x2fu8, 0x3eu8, 0x3cu8, 0x69u8, 0x6du8, 0x61u8, 0x67u8, 0x65u8, 0x20u8, 0x69u8, 0x64u8, 0x3du8, 0x22u8, 0x69u8, 0x6du8, 0x61u8, 0x67u8, 0x65u8, 0x5fu8, 0x6du8, 0x61u8, 0x70u8, 0x22u8, 0x20u8, 0x77u8, 0x69u8, 0x64u8, 0x74u8, 0x68u8, 0x3du8, 0x22u8, 0x32u8, 0x35u8, 0x30u8, 0x22u8, 0x20u8, 0x68u8, 0x65u8, 0x69u8, 0x67u8, 0x68u8, 0x74u8, 0x3du8, 0x22u8, 0x32u8, 0x35u8, 0x30u8, 0x22u8, 0x20u8, 0x68u8, 0x72u8, 0x65u8, 0x66u8, 0x3du8, 0x22u8, 0x6du8, 0x61u8, 0x70u8, 0x2eu8, 0x70u8, 0x6eu8, 0x67u8, 0x22u8, 0x2fu8, 0x3eu8, 0x3cu8, 0x2fu8, 0x73u8, 0x76u8, 0x67u8, 0x3eu8]
}

/// All built-in templates.
pub fn get_templates() -> (r: Vec<EmbeddedTemplate>)
    ensures
        r@.len() == 1,
        r@[0].name@ == builtin_name(),
        r@[0].content@ == builtin_content(),
{
    let name: Vec<u8> = vec![0x70u8, 0x6cu8, 0x61u8, 0x69u8, 0x6eu8];
    let content: Vec<u8> = vec![0x3cu8, 0x73u8, 0x76u8, 0x67u8, 0x20u8, 0x77u8, 0x69u8, 0x64u8, 0x74u8, 0x68u8, 0x3du8, 0x22u8, 0x31u8, 0x30u8, 0x38u8, 0x30u8, 0x22u8, 0x20u8, 0x68u8, 0x65u8, 0x69u8, 0x67u8, 0x68u8, 0x74u8, 0x3du8, 0x22u8, 0x31u8, 0x39u8, 0x32u8, 0x30u8, 0x22u8, 0x20u8, 0x76u8, 0x69u8, 0x65u8, 0x77u8, 0x42u8, 0x6fu8, 0x78u8, 0x3du8, 0x22u8, 0x30u8, 0x20u8, 0x30u8, 0x20u8, 0x32u8, 0x37u8, 0x30u8, 0x20u8, 0x34u8, 0x38u8, 0x30u8, 0x22u8, 0x3eu8, 0x3cu8, 0x74u8, 0x65u8, 0x78u8, 0x74u8, 0x20u8, 0x69u8, 0x64u8, 0x3du8, 0x22u8, 0x76u8, 0x61u8, 0x6cu8, 0x75u8, 0x65u8, 0x5fu8, 0x74u8, 0x72u8, 0x61u8, 0x63u8, 0x6bu8, 0x5fu8, 0x6eu8, 0x61u8, 0x6du8, 0x65u8, 0x22u8, 0x3eu8, 0x6eu8, 0x61u8, 0x6du8, 0x65u8, 0x3cu8, 0x2fu8, 0x74u8, 0x65u8, 0x78u8, 0x74u8, 0x3eu8, 0x3cu8, 0x74u8, 0x65u8, 0x78u8, 0x74u8, 0x20u8, 0x69u8, 0x64u8, 0x3du8, 0x22u8, 0x76u8, 0x61u8, 0x6cu8, 0x75u8, 0x65u8, 0x5fu8, 0x64u8, 0x69u8, 0x73u8, 0x74u8, 0x61u8, 0x6eu8, 0x63u8, 0x65u8, 0x22u8, 0x3eu8, 0x30u8, 0x6bu8, 0x6du8, 0x3cu8, 0x2fu8, 0x74u8, 0x65u8, 0x78u8, 0x74u8, 0x3eu8, 0x3cu8, 0x74u8, 0x65u8, 0x78u8, 0x74u8, 0x20u8, 0x69u8, 0x64u8, 0x3du8, 0x22u8, 0x76u8, 0x61u8, 0x6cu8, 0x75u8, 0x65u8, 0x5fu8, 0x74u8, 0x69u8, 0x6du8, 0x65u8, 0x22u8, 0x3eu8, 0x30u8, 0x30u8, 0x3au8, 0x30u8, 0x30u8, 0x3au8, 0x30u8, 0x30u8, 0x3cu8, 0x2fu8, 0x74u8, 0x65u8, 0x78u8, 0x74u8, 0x3eu8, 0x3cu8, 0x70u8, 0x61u8, 0x74u8, 0x68u8, 0x20u8, 0x69u8, 0x64u8, 0x3du8, 0x22u8, 0x70u8, 0x61u8, 0x74u8, 0x68u8, 0x5fu8, 0x65u8, 0x6cu8, 0x65u8, 0x76u8, 0x61u8, 0x74u8, 0x69u8, 0x6fu8, 0x6eu8, 0x22u8, 0x20u8, 0x64u8, 0x3du8, 0x22u8, 0x6du8, 0x20u8, 0x31u8, 0x30u8, 0x2cu8, 0x34u8, 0x30u8, 0x30u8, 0x20u8, 0x32u8, 0x35u8, 0x30u8, 0x2cu8, 0x2du8, 0x31u8, 0x30u8, 0x30u8, 0x22u8, 0x20u8, 0x73u8, 0x74u8, 0x72u8, 0x6fu8, 0x6bu8, 0x65u8, 0x3du8, 0x22u8, 0x23u8, 0x32u8, 0x64u8, 0x62u8, 0x31u8, 0x39u8, 0x32u8, 0x22u8, 0x2fu8, 0x3eu8, 0x3cu8, 0x69u8, 0x6du8, 0x61u8, 0x67u8, 0x65u8, 0x20u8, 0x69u8, 0x64u8, 0x3du8, 0x22u8, 0x69u8, 0x6du8, 0x61u8, 0x67u8, 0x65u8, 0x5fu8, 0x6du8, 0x61u8, 0x70u8, 0x22u8, 0x20u8, 0x77u8, 0x69u8, 0x64u8, 0x74u8, 0x68u8, 0x3du8, 0x22u8, 0x32u8, 0x35u8, 0x30u8, 0x22u8, 0x20u8, 0x68u8, 0x65u8, 0x69u8, 0x67u8, 0x68u8, 0x74u8, 0x3du8, 0x22u8, 0x32u8, 0x35u8, 0x30u8, 0x22u8, 0x20u8, 0x68u8, 0x72u8, 0x65u8, 0x66u8, 0x3du8, 0x22u8, 0x6du8, 0x61u8, 0x70u8, 0x2eu8, 0x70u8, 0x6eu8, 0x67u8, 0x22u8, 0x2fu8, 0x3eu8, 0x3cu8, 0x2fu8, 0x73u8, 0x76u8, 0x67u8, 0x3eu8];
    assert(name@ =~= builtin_name());
    assert(content@ =~= builtin_content());
    let mut v: Vec<EmbeddedTemplate> = Vec::new();
    v.push(EmbeddedTemplate { name, content });
    v
}

/// Finds a built-in template by name.
pub fn get_template_by_name(name: &[u8]) -> (r: Option<EmbeddedTemplate>)
    ensures
        match r {
            Some(t) => name@ == builtin_name() && t.name@ == builtin_name() && t.content@
                == builtin_content(),
            None => name@ != builtin_name(),
        },
{
    let mut ts = get_templates();
    let t = match ts.pop() {
        Some(t) => t,
        None => {
            return None;
        },
    };
    if crate::bytes::bytes_eq(name, t.name.as_slice()) {
        Some(t)
    } else {
        None
    }
}

} // verus!

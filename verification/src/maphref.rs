//! The rendered map asset as an inline image reference: a PNG wrapped
//! into a base64 data reference.
use vstd::prelude::*;

verus! {

/// What the standard padded base64 alphabet encodes `s` to.
pub uninterp spec fn base64_std(s: Seq<u8>) -> Seq<u8>;

/// Relies on base64's standard engine with padding: the encoding depends
/// on the bytes alone, and the documented output length is four characters
/// per started three-byte group.
#[verifier::external_body]
fn base64_encode(bytes: &[u8]) -> (r: Vec<u8>)
    ensures
        r@ == base64_std(bytes@),
        r@.len() == 4 * ((bytes@.len() + 2) / 3),
{
    base64::Engine::encode(&base64::engine::general_purpose::STANDARD, bytes).into_bytes()
}

/// The reference prefix for an inline PNG.
pub open spec fn data_png_prefix() -> Seq<u8> {
    seq![
        0x64u8, 0x61u8, 0x74u8, 0x61u8, 0x3au8, 0x69u8, 0x6du8, 0x61u8, 0x67u8, 0x65u8, 0x2fu8,
        0x70u8, 0x6eu8, 0x67u8, 0x3bu8, 0x62u8, 0x61u8, 0x73u8, 0x65u8, 0x36u8, 0x34u8, 0x2cu8,
    ]
}

/// Wraps encoded PNG bytes into the inline image reference an `image_`
/// placeholder carries.
pub fn map_data_href(png: &[u8]) -> (r: Vec<u8>)
    ensures
        r@ == data_png_prefix() + base64_std(png@),
        r@.len() == data_png_prefix().len() + 4 * ((png@.len() + 2) / 3),
{
    let mut out: Vec<u8> = vec![
        0x64u8, 0x61u8, 0x74u8, 0x61u8, 0x3au8, 0x69u8, 0x6du8, 0x61u8, 0x67u8, 0x65u8, 0x2fu8,
        0x70u8, 0x6eu8, 0x67u8, 0x3bu8, 0x62u8, 0x61u8, 0x73u8, 0x65u8, 0x36u8, 0x34u8, 0x2cu8,
    ];
    assert(out@ =~= data_png_prefix());
    let enc = base64_encode(png);
    crate::bytes::push_all(&mut out, enc.as_slice());
    out
}

} // verus!

use bicit::Context;
use bicit::color::Rgba;
use bicit::color::parse_hex_color;
use bicit::color::parse_style_stroke_color;
use bicit::engine::AssetProvider;
use bicit::engine::NoAssets;
use bicit::engine::substitute;
use bicit::track::Segment;
use bicit::track::Track;
use bicit::track::TrackPoint;

fn b(s: &str) -> Vec<u8> {
    s.as_bytes().to_vec()
}

fn s(v: Vec<u8>) -> String {
    String::from_utf8(v).unwrap()
}

/// A context whose total distance is exactly 22 000 m.
fn ctx_22km() -> Context {
    let p0 = TrackPoint {
        lon_udeg: 0,
        lat_udeg: 0,
        dist_prev_mm: 0,
        elevation_mm: None,
        time_s: None,
    };
    let p1 = TrackPoint {
        lon_udeg: 1,
        lat_udeg: 1,
        dist_prev_mm: 22_000_000,
        elevation_mm: None,
        time_s: None,
    };
    let seg = Segment { points: vec![p0, p1], pair_dist_mm: Vec::new() };
    let tracks = vec![Track { name: Some(b("Ride")), segments: vec![seg] }];
    let mut ctx = Context::new(b("ride.gpx"));
    ctx.load(&tracks).unwrap();
    ctx
}

#[test]
fn document_without_identifiers_passes_through_unchanged() {
    let doc = b("<svg width=\"10\" height=\"10\"><rect id=\"frame\" x=\"1\"/>text &amp; more<!-- note --></svg>");
    let ctx = Context::new(b("x.gpx"));
    let mut assets = NoAssets;
    let out = substitute(&doc, &ctx, &mut assets).unwrap();
    assert_eq!(out, doc);
}

#[test]
fn malformed_document_is_rejected() {
    let doc = b("<svg><text id=\"value_distance\">oops");
    let ok_doc = b("<svg></svg>");
    let ctx = Context::new(b("x.gpx"));
    let mut assets = NoAssets;
    assert!(substitute(&b("<svg"), &ctx, &mut assets).is_err());
    assert!(substitute(&b("<!-- open"), &ctx, &mut assets).is_err());
    assert!(substitute(&doc, &ctx, &mut assets).is_ok());
    assert!(substitute(&ok_doc, &ctx, &mut assets).is_ok());
}

#[test]
fn distance_text_is_replaced_with_formatted_value() {
    let doc = b("<svg width=\"10\" height=\"10\"><text id=\"value_distance\">0km</text></svg>");
    let ctx = ctx_22km();
    let mut assets = NoAssets;
    let out = s(substitute(&doc, &ctx, &mut assets).unwrap());
    assert_eq!(
        out,
        "<svg width=\"10\" height=\"10\"><text id=\"value_distance\">22km</text></svg>"
    );
}

#[test]
fn replacement_reaches_text_inside_child_span() {
    let doc = b("<svg><text id=\"value_distance\">\n  <tspan>0km</tspan></text></svg>");
    let ctx = ctx_22km();
    let mut assets = NoAssets;
    let out = s(substitute(&doc, &ctx, &mut assets).unwrap());
    assert_eq!(out, "<svg><text id=\"value_distance\">\n  <tspan>22km</tspan></text></svg>");
}

#[test]
fn unresolved_identifier_is_left_unchanged() {
    let doc = b("<svg><text id=\"value_unknown\">keep</text></svg>");
    let ctx = ctx_22km();
    let mut assets = NoAssets;
    let out = substitute(&doc, &ctx, &mut assets).unwrap();
    assert_eq!(out, doc);
}

#[test]
fn replacement_without_text_event_is_dropped() {
    let doc = b("<svg><text id=\"value_distance\"></text></svg>");
    let ctx = ctx_22km();
    let mut assets = NoAssets;
    let out = substitute(&doc, &ctx, &mut assets).unwrap();
    assert_eq!(out, doc);
}

#[test]
fn elevation_path_attribute_is_rewritten() {
    let doc = b(
        "<svg><path id=\"path_elevation\" d=\"m 0,100 100,-50\" stroke=\"#22C55E\"/></svg>",
    );
    let p0 = TrackPoint {
        lon_udeg: 0,
        lat_udeg: 0,
        dist_prev_mm: 0,
        elevation_mm: Some(10_000),
        time_s: None,
    };
    let mut points = vec![p0];
    for _ in 0..9 {
        points.push(TrackPoint {
            lon_udeg: 0,
            lat_udeg: 0,
            dist_prev_mm: 100_000,
            elevation_mm: None,
            time_s: None,
        });
    }
    points.push(TrackPoint {
        lon_udeg: 0,
        lat_udeg: 0,
        dist_prev_mm: 100_000,
        elevation_mm: Some(20_000),
        time_s: None,
    });
    let seg = Segment { points, pair_dist_mm: vec![1_000_000] };
    let tracks = vec![Track { name: None, segments: vec![seg] }];
    let mut ctx = Context::new(b("x.gpx"));
    ctx.load(&tracks).unwrap();
    let mut assets = NoAssets;
    let out = s(substitute(&doc, &ctx, &mut assets).unwrap());
    assert!(out.starts_with("<svg><path id=\"path_elevation\" d=\"m 0,100 l "));
    assert!(out.contains("l 0 "));
    assert!(out.ends_with("\" stroke=\"#22C55E\"/></svg>"));
}

struct RecordingAssets {
    pub seen: Option<(Vec<u8>, u32, u32, Option<Rgba>)>,
    pub answer: Option<Vec<u8>>,
}

impl AssetProvider for RecordingAssets {
    fn get_image(
        &mut self,
        k: &[u8],
        w_px: u32,
        h_px: u32,
        color: Option<Rgba>,
    ) -> Option<Vec<u8>> {
        self.seen = Some((k.to_vec(), w_px, h_px, color));
        self.answer.clone()
    }
}

#[test]
fn image_reference_is_replaced_at_scaled_pixel_size() {
    let doc = b(
        "<svg width=\"1080\" height=\"1080\" viewBox=\"0 0 285.75 285.75\">\
         <image id=\"image_map\" width=\"158.75\" height=\"190.5\" href=\"old.png\"/></svg>",
    );
    let ctx = ctx_22km();
    let mut assets = RecordingAssets { seen: None, answer: Some(b("new.png")) };
    let out = s(substitute(&doc, &ctx, &mut assets).unwrap());
    let (k, w, h, color) = assets.seen.clone().unwrap();
    assert_eq!(k, b("image_map"));
    assert_eq!((w, h), (600, 720));
    assert_eq!(color, None);
    assert!(out.contains("href=\"new.png\""));
    assert!(!out.contains("old.png"));
}

#[test]
fn image_request_carries_track_color() {
    let doc = b(
        "<svg width=\"1080\" height=\"1080\" viewBox=\"0 0 285.75 285.75\">\
         <path id=\"path_elevation\" style=\"fill:none;stroke:#2db192;stroke-width:1\"/>\
         <image id=\"image_map\" width=\"158.75\" height=\"190.5\" href=\"old.png\"/></svg>",
    );
    let ctx = ctx_22km();
    let mut assets = RecordingAssets { seen: None, answer: None };
    let out = substitute(&doc, &ctx, &mut assets).unwrap();
    let (_, _, _, color) = assets.seen.clone().unwrap();
    assert_eq!(color, Some(Rgba { r: 0x2d, g: 0xb1, b: 0x92, a: 255 }));
    // The provider answered nothing: the reference stays.
    assert_eq!(out, doc);
}

#[test]
fn stroke_attribute_color_is_extracted_exactly() {
    assert_eq!(
        parse_hex_color(b"#22C55E"),
        Some(Rgba { r: 0x22, g: 0xc5, b: 0x5e, a: 255 })
    );
    assert_eq!(
        parse_hex_color(b"#22C55E80"),
        Some(Rgba { r: 0x22, g: 0xc5, b: 0x5e, a: 0x80 })
    );
    assert_eq!(parse_hex_color(b"red"), None);
    assert_eq!(parse_hex_color(b"#22C5"), None);
}

#[test]
fn style_stroke_color_is_case_insensitive() {
    assert_eq!(
        parse_style_stroke_color(b"fill:none;stroke:#2db192;stroke-width:1"),
        Some(Rgba { r: 0x2d, g: 0xb1, b: 0x92, a: 255 })
    );
    assert_eq!(
        parse_style_stroke_color(b"fill:none;stroke:#2DB192;stroke-width:1"),
        Some(Rgba { r: 0x2d, g: 0xb1, b: 0x92, a: 255 })
    );
    assert_eq!(parse_style_stroke_color(b"fill:none"), None);
}

#[test]
fn comments_and_cdata_pass_through() {
    let doc = b("<?xml version=\"1.0\"?><!DOCTYPE svg><svg><!-- <text id=\"x\"> --><![CDATA[ raw <> bytes ]]></svg>");
    let ctx = Context::new(b("x.gpx"));
    let mut assets = NoAssets;
    let out = substitute(&doc, &ctx, &mut assets).unwrap();
    assert_eq!(out, doc);
}

#[test]
fn single_quoted_identifier_is_recognized() {
    let doc = b("<svg><text id='value_distance'>0km</text></svg>");
    let ctx = ctx_22km();
    let mut assets = NoAssets;
    let out = s(substitute(&doc, &ctx, &mut assets).unwrap());
    assert_eq!(out, "<svg><text id='value_distance'>22km</text></svg>");
}

#[test]
fn quoted_angle_bracket_stays_inside_tag() {
    let doc = b("<svg><rect title=\"a > b\"/>x</svg>");
    let ctx = Context::new(b("x.gpx"));
    let mut assets = NoAssets;
    let out = substitute(&doc, &ctx, &mut assets).unwrap();
    assert_eq!(out, doc);
}

#[test]
fn path_without_data_attribute_is_unchanged() {
    let doc = b("<svg><path id=\"path_elevation\" stroke=\"#222222\"/></svg>");
    let ctx = ctx_22km();
    let mut assets = NoAssets;
    let out = substitute(&doc, &ctx, &mut assets).unwrap();
    assert_eq!(out, doc);
}

#[test]
fn image_without_size_is_unchanged() {
    let doc = b("<svg width=\"10\" height=\"10\"><image id=\"image_map\" href=\"old.png\"/></svg>");
    let ctx = ctx_22km();
    let mut assets = RecordingAssets { seen: None, answer: Some(b("new.png")) };
    let out = substitute(&doc, &ctx, &mut assets).unwrap();
    assert!(assets.seen.is_none());
    assert_eq!(out, doc);
}

use bicit::Context;
use bicit::color::Rgba;
use bicit::fmt::fmt_km_b;
use bicit::fmt::fmt_m_b;
use bicit::fmt::fmt_speed_b;
use bicit::fmt::get_hhmmss;
use bicit::track::Segment;
use bicit::track::Track;
use bicit::track::TrackPoint;

fn b(s: &str) -> Vec<u8> {
    s.as_bytes().to_vec()
}

fn s(v: Vec<u8>) -> String {
    String::from_utf8(v).unwrap()
}

fn pt(dist_mm: u64, elev_mm: Option<i64>, time_s: Option<i64>) -> TrackPoint {
    TrackPoint { lon_udeg: 0, lat_udeg: 0, dist_prev_mm: dist_mm, elevation_mm: elev_mm, time_s }
}

/// One decimated pair: 10 km in 1800 s, climbing 20 m from 100 m.
fn loaded_ctx() -> Context {
    let mut points = vec![pt(0, Some(100_000), Some(0))];
    for _ in 0..9 {
        points.push(pt(1_000_000, None, None));
    }
    points.push(pt(1_000_000, Some(120_000), Some(1800)));
    let seg = Segment { points, pair_dist_mm: vec![10_000_000] };
    let tracks = vec![Track { name: Some(b("Hill loop")), segments: vec![seg] }];
    let mut ctx = Context::new(b("loop.gpx"));
    ctx.load(&tracks).unwrap();
    ctx
}

#[test]
fn formatted_values_follow_the_table() {
    let ctx = loaded_ctx();
    assert_eq!(s(ctx.get_string(b"value_track_name").unwrap()), "Hill loop");
    // Ten raw kilometres.
    assert_eq!(s(ctx.get_string(b"value_distance").unwrap()), "10km");
    // 10 000 m in 1800 s: 20 km/h.
    assert_eq!(s(ctx.get_string(b"value_speed").unwrap()), "20.0km/h");
    assert_eq!(s(ctx.get_string(b"value_speed_max").unwrap()), "20.0km/h");
    assert_eq!(s(ctx.get_string(b"value_speed_moving").unwrap()), "20.0km/h");
    assert_eq!(s(ctx.get_string(b"value_uphill").unwrap()), "20m");
    assert_eq!(s(ctx.get_string(b"value_downhill").unwrap()), "0m");
    assert_eq!(s(ctx.get_string(b"value_elevation_max").unwrap()), "100m");
    assert_eq!(s(ctx.get_string(b"value_elevation_min").unwrap()), "100m");
    assert_eq!(s(ctx.get_string(b"value_time").unwrap()), "00:30:00");
    assert_eq!(s(ctx.get_string(b"value_moving_time").unwrap()), "00:30:00");
    assert_eq!(ctx.get_string(b"value_unknown"), None);
}

#[test]
fn unloaded_context_resolves_nothing() {
    let ctx = Context::new(b("x.gpx"));
    assert_eq!(ctx.get_string(b"value_distance"), None);
    assert_eq!(ctx.get_image(b"image_map", 10, 10, None), None);
}

#[test]
fn map_memo_is_keyed_by_size_and_color() {
    let mut ctx = loaded_ctx();
    let red = Some(Rgba { r: 255, g: 0, b: 0, a: 255 });
    assert!(ctx.needs_render(600, 720, red));
    ctx.store_map(600, 720, red, b("data:image/png;base64,AAAA"));
    assert!(!ctx.needs_render(600, 720, red));
    assert_eq!(
        s(ctx.get_image(b"image_map", 600, 720, red).unwrap()),
        "data:image/png;base64,AAAA"
    );
    // A different size or color never reuses the stale entry.
    assert_eq!(ctx.get_image(b"image_map", 601, 720, red), None);
    assert_eq!(ctx.get_image(b"image_map", 600, 720, None), None);
    assert_eq!(ctx.get_image(b"image_other", 600, 720, red), None);
    assert!(ctx.needs_render(601, 720, red));
    ctx.cleanup_temp_files();
    assert_eq!(ctx.get_image(b"image_map", 600, 720, red), None);
}

#[test]
fn duration_formatting_is_zero_padded() {
    assert_eq!(s(get_hhmmss(0)), "00:00:00");
    assert_eq!(s(get_hhmmss(3661)), "01:01:01");
    assert_eq!(s(get_hhmmss(86399)), "23:59:59");
    assert_eq!(s(get_hhmmss(360000)), "100:00:00");
}

#[test]
fn kilometre_formatting_rounds_half_up() {
    assert_eq!(s(fmt_km_b(21_499_999)), "21km");
    assert_eq!(s(fmt_km_b(21_500_000)), "22km");
    assert_eq!(s(fmt_km_b(0)), "0km");
}

#[test]
fn speed_formatting_keeps_one_decimal() {
    assert_eq!(s(fmt_speed_b(10_000, 3600)), "10.0km/h");
    assert_eq!(s(fmt_speed_b(10_250, 3600)), "10.3km/h");
    assert_eq!(s(fmt_speed_b(0, 0)), "0.0km/h");
}

#[test]
fn metre_formatting_rounds_half_away_from_zero() {
    assert_eq!(s(fmt_m_b(1_499)), "1m");
    assert_eq!(s(fmt_m_b(1_500)), "2m");
    assert_eq!(s(fmt_m_b(-1_500)), "-2m");
    assert_eq!(s(fmt_m_b(0)), "0m");
}

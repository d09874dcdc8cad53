use bicit::metrics::build_metrics;
use bicit::metrics::image_pixel_size;
use bicit::metrics::parse_len_px;
use bicit::metrics::parse_viewbox;
use bicit::metrics::qty_eq;
use bicit::metrics::qty_eq_int;

#[test]
fn unit_conversions_agree_at_ninety_six_pixels() {
    let mm = parse_len_px(b"25.4mm").unwrap();
    let inch = parse_len_px(b"1in").unwrap();
    let pt = parse_len_px(b"72pt").unwrap();
    let px = parse_len_px(b"96px").unwrap();
    let bare = parse_len_px(b"96").unwrap();
    assert!(qty_eq_int(&mm, 96));
    assert!(qty_eq(&mm, &inch));
    assert!(qty_eq(&inch, &pt));
    assert!(qty_eq(&pt, &px));
    assert!(qty_eq(&px, &bare));
}

#[test]
fn centimetres_scale_like_millimetres() {
    let cm = parse_len_px(b"2.54cm").unwrap();
    assert!(qty_eq_int(&cm, 96));
}

#[test]
fn unknown_unit_is_unparsable() {
    assert!(parse_len_px(b"10em").is_none());
    assert!(parse_len_px(b"abc").is_none());
}

#[test]
fn viewbox_accepts_commas_and_whitespace() {
    assert_eq!(
        parse_viewbox(b"0 0 285.75 285.75"),
        Some((0, 0, 285_750_000, 285_750_000))
    );
    assert_eq!(
        parse_viewbox(b"0,0,  10.5 ,20"),
        Some((0, 0, 10_500_000, 20_000_000))
    );
    assert!(parse_viewbox(b"0 0 10").is_none());
    assert!(parse_viewbox(b"0 0 10 x").is_none());
}

#[test]
fn image_resolves_to_exact_pixels() {
    let m = build_metrics(b"1080", b"1080", Some(b"0 0 285.75 285.75")).unwrap();
    let size = image_pixel_size(Some(&m), 158_750_000, 190_500_000).unwrap();
    assert_eq!(size, (600, 720));
}

#[test]
fn missing_metrics_fall_back_to_base_width() {
    let size = image_pixel_size(None, 100_000_000, 50_000_000).unwrap();
    assert_eq!(size, (1000, 500));
}

#[test]
fn non_positive_sizes_are_unresolved() {
    let m = build_metrics(b"1080", b"1080", Some(b"0 0 285.75 285.75")).unwrap();
    assert!(image_pixel_size(Some(&m), 0, 10_000_000).is_none());
    assert!(image_pixel_size(Some(&m), 10_000_000, -1).is_none());
}

#[test]
fn metrics_require_parsable_dimensions() {
    assert!(build_metrics(b"wide", b"1080", Some(b"0 0 10 10")).is_none());
    assert!(build_metrics(b"1080", b"1080", Some(b"0 0 0 10")).is_none());
}

use bicit::Context;
use bicit::InputPath;
use bicit::path::build_elevation_path;
use bicit::track::ElevPoint;
use bicit::track::Segment;
use bicit::track::Track;
use bicit::track::TrackPoint;

fn micro_to_f64(v: i64) -> f64 {
    v as f64 / 1_000_000.0
}

#[test]
fn parse_path_m() {
    let i = InputPath::new(b"m 2.64583,169.33333 10.583337,-31.75").unwrap();
    assert!((micro_to_f64(i.height_micro) - (-31.75)).abs() < 1e-6);
    assert!((micro_to_f64(i.length_micro) - 10.583337).abs() < 1e-6);
    assert_eq!(i.ss, b"2.64583,169.33333");
    assert!(!i.is_absolute);
}

#[test]
fn parse_path_big_m() {
    let i = InputPath::new(b"M 5.2,174.6 137.5,140.2").unwrap();
    assert!((micro_to_f64(i.height_micro) - (-34.4)).abs() < 1e-6);
    assert!((micro_to_f64(i.length_micro) - 132.3).abs() < 1e-6);
    assert!(i.is_absolute);
    assert_eq!(i.ss, b"5.2,174.6");
}

#[test]
fn parse_path_rejects_other_commands() {
    assert!(InputPath::new(b"l 1,2 3,4").is_err());
    assert!(InputPath::new(b"m").is_err());
    assert!(InputPath::new(b"m 1,2").is_err());
    assert!(InputPath::new(b"m 1 2").is_err());
}

#[test]
fn elevation_path_scales_profile_into_box() {
    let inp = InputPath::new(b"m 0,100 100,-50").unwrap();
    let profile = vec![
        ElevPoint { dist_mm: 250_000, elev_mm: 10_000 },
        ElevPoint { dist_mm: 1_000_000, elev_mm: 20_000 },
    ];
    let out = build_elevation_path(&profile, 1_000_000, 10_000, 20_000, &inp);
    assert_eq!(String::from_utf8(out).unwrap(), "m 0,100 l 25 0 l 75 -5 l 0 5");
}

#[test]
fn elevation_path_keeps_absolute_prefix() {
    let inp = InputPath::new(b"M 5,100 105,50").unwrap();
    let profile = vec![ElevPoint { dist_mm: 1_000_000, elev_mm: 20_000 }];
    let out = build_elevation_path(&profile, 1_000_000, 10_000, 20_000, &inp);
    // One sample at full distance: x spans the whole length; the elevation
    // offset of 10 m over the 100 m floor takes a tenth of the height.
    assert_eq!(String::from_utf8(out).unwrap(), "M 5,100 l 100 -5 l 0 5");
}

#[test]
fn elevation_path_of_empty_profile_closes_flat() {
    let inp = InputPath::new(b"m 0,100 100,-50").unwrap();
    let profile: Vec<ElevPoint> = Vec::new();
    let out = build_elevation_path(&profile, 1_000_000, 0, 0, &inp);
    assert_eq!(String::from_utf8(out).unwrap(), "m 0,100  l 0 0");
}

#[test]
fn elevation_path_emits_fractional_micro_units() {
    let inp = InputPath::new(b"m 0,0 1,-1").unwrap();
    let profile = vec![ElevPoint { dist_mm: 333_333, elev_mm: 0 }];
    let out = build_elevation_path(&profile, 1_000_000, 0, 0, &inp);
    // x = 333333/1000000 of one unit; y = 0.
    assert_eq!(String::from_utf8(out).unwrap(), "m 0,0 l 0.333333 0 l 0 0");
}

#[test]
fn context_resolves_elevation_path_only() {
    let mut points = vec![TrackPoint {
        lon_udeg: 0,
        lat_udeg: 0,
        dist_prev_mm: 0,
        elevation_mm: Some(10_000),
        time_s: None,
    }];
    for _ in 0..9 {
        points.push(TrackPoint {
            lon_udeg: 0,
            lat_udeg: 0,
            dist_prev_mm: 100_000,
            elevation_mm: None,
            time_s: None,
        });
    }
    points.push(TrackPoint {
        lon_udeg: 0,
        lat_udeg: 0,
        dist_prev_mm: 100_000,
        elevation_mm: Some(20_000),
        time_s: None,
    });
    let seg = Segment { points, pair_dist_mm: vec![1_000_000] };
    let tracks = vec![Track { name: None, segments: vec![seg] }];
    let mut ctx = Context::new(b"x.gpx".to_vec());
    ctx.load(&tracks).unwrap();
    let inp = InputPath::new(b"m 0,100 100,-50").unwrap();
    // Total distance 1 km; one sample at the decimated kilometre.
    let d = String::from_utf8(ctx.get_path(b"path_elevation", &inp).unwrap()).unwrap();
    assert_eq!(d, "m 0,100 l 100 0 l 0 0");
    assert!(ctx.get_path(b"path_other", &inp).is_none());
}

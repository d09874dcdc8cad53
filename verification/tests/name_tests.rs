use bicit::name::compute_track_name;
use bicit::name::file_stem;
use bicit::name::trim_bytes;
use bicit::name::truncate_ellipsis;
use bicit::track::Track;

fn b(s: &str) -> Vec<u8> {
    s.as_bytes().to_vec()
}

fn named_track(name: &str) -> Track {
    Track { name: Some(b(name)), segments: Vec::new() }
}

fn unnamed_track() -> Track {
    Track { name: None, segments: Vec::new() }
}

#[test]
fn track_name_falls_back_to_filename_stem() {
    let tracks: Vec<Track> = Vec::new();
    assert_eq!(compute_track_name(&tracks, b"foo_bar.gpx"), b"foo_bar");
}

#[test]
fn track_name_is_truncated_to_32() {
    let tracks = vec![named_track("abcdefghijklmnopqrstuvwxyz0123456789")];
    let name = String::from_utf8(compute_track_name(&tracks, b"x.gpx")).unwrap();
    assert_eq!(name.chars().count(), 32);
    assert!(name.ends_with('\u{2026}'));
}

#[test]
fn short_name_is_kept_unchanged() {
    let tracks = vec![named_track("Morning ride")];
    assert_eq!(compute_track_name(&tracks, b"x.gpx"), b"Morning ride");
}

#[test]
fn name_is_trimmed_before_use() {
    let tracks = vec![named_track("  Morning ride \n")];
    assert_eq!(compute_track_name(&tracks, b"x.gpx"), b"Morning ride");
}

#[test]
fn whitespace_name_falls_through_to_later_track() {
    let tracks = vec![named_track("   "), named_track("Second")];
    assert_eq!(compute_track_name(&tracks, b"x.gpx"), b"Second");
}

#[test]
fn unnamed_track_uses_stem() {
    let tracks = vec![unnamed_track()];
    assert_eq!(compute_track_name(&tracks, b"dir/ride.gpx"), b"ride");
}

#[test]
fn empty_stem_uses_default_name() {
    let tracks: Vec<Track> = Vec::new();
    assert_eq!(compute_track_name(&tracks, b""), b"track");
}

#[test]
fn truncate_to_zero_returns_empty() {
    assert_eq!(truncate_ellipsis(b"abc", 0), b"");
}

#[test]
fn truncate_exact_limit_unchanged() {
    assert_eq!(truncate_ellipsis(b"abcd", 4), b"abcd");
}

#[test]
fn truncate_over_limit_ends_with_ellipsis() {
    let out = String::from_utf8(truncate_ellipsis(b"abcdef", 4)).unwrap();
    assert_eq!(out, "abc\u{2026}");
    assert_eq!(out.chars().count(), 4);
}

#[test]
fn truncate_counts_characters_not_bytes() {
    let input = "\u{e9}\u{e9}\u{e9}\u{e9}\u{e9}";
    let out = String::from_utf8(truncate_ellipsis(input.as_bytes(), 3)).unwrap();
    assert_eq!(out.chars().count(), 3);
    assert_eq!(out, "\u{e9}\u{e9}\u{2026}");
}

#[test]
fn stem_strips_directory_and_extension() {
    assert_eq!(file_stem(b"a/b/ride.gpx"), b"ride");
    assert_eq!(file_stem(b"noext"), b"noext");
    assert_eq!(file_stem(b".hidden"), b".hidden");
    assert_eq!(file_stem(b"a.b.c"), b"a.b");
    assert_eq!(file_stem(b"dir/"), b"dir");
    assert_eq!(file_stem(b"a/b.gpx/"), b"b");
    assert_eq!(file_stem(b"/"), b"");
}

#[test]
fn trim_removes_edges_only() {
    assert_eq!(trim_bytes(b"  a b  "), b"a b");
    assert_eq!(trim_bytes(b"\t\n"), b"");
}

#[test]
fn trim_matches_unicode_whitespace() {
    let cases = [
        "\u{a0}name\u{a0}",
        "\u{2003}name \u{3000}",
        "\u{1680}\u{2028}name\u{202f}\u{205f}",
        " \u{85}name\u{b}\u{c}",
        "name",
        "   ",
        "\u{2000}\u{200a}",
    ];
    for c in cases {
        assert_eq!(
            String::from_utf8(trim_bytes(c.as_bytes())).unwrap(),
            c.trim(),
            "trim of {c:?}"
        );
    }
}

#[test]
fn trimmed_unicode_name_is_resolved() {
    let tracks = vec![named_track("\u{a0}\u{2003}Morning ride\u{a0}")];
    assert_eq!(compute_track_name(&tracks, b"x.gpx"), b"Morning ride");
}

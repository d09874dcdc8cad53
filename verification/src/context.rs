//! The context: the per-load aggregate of the computed track statistics,
//! the resolved display name, and the memoized rendered map asset, together
//! with the formatted values the template's text placeholders resolve to.
use vstd::prelude::*;

use crate::color::Rgba;
use crate::fmt::fmt_hhmmss;
use crate::fmt::fmt_km;
use crate::fmt::fmt_m;
use crate::fmt::fmt_speed;
use crate::name::spec_track_name;
use crate::track::LoadError;
use crate::track::Track;
use crate::track::TrackStats;
use crate::track::round_m;
use crate::track::stats_matches;
use crate::track::stats_wf;
use crate::track::tracks_m;

verus! {

/// The identifier `value_track_name`.
pub open spec fn key_track_name() -> Seq<u8> {
    seq![0x76u8, 0x61u8, 0x6cu8, 0x75u8, 0x65u8, 0x5fu8, 0x74u8, 0x72u8, 0x61u8, 0x63u8, 0x6bu8, 0x5fu8, 0x6eu8, 0x61u8, 0x6du8, 0x65u8]
}

/// The identifier `value_distance`.
pub open spec fn key_distance() -> Seq<u8> {
    seq![0x76u8, 0x61u8, 0x6cu8, 0x75u8, 0x65u8, 0x5fu8, 0x64u8, 0x69u8, 0x73u8, 0x74u8, 0x61u8, 0x6eu8, 0x63u8, 0x65u8]
}

/// The identifier `value_speed`.
pub open spec fn key_speed() -> Seq<u8> {
    seq![0x76u8, 0x61u8, 0x6cu8, 0x75u8, 0x65u8, 0x5fu8, 0x73u8, 0x70u8, 0x65u8, 0x65u8, 0x64u8]
}

/// The identifier `value_speed_max`.
pub open spec fn key_speed_max() -> Seq<u8> {
    seq![0x76u8, 0x61u8, 0x6cu8, 0x75u8, 0x65u8, 0x5fu8, 0x73u8, 0x70u8, 0x65u8, 0x65u8, 0x64u8, 0x5fu8, 0x6du8, 0x61u8, 0x78u8]
}

/// The identifier `value_speed_moving`.
pub open spec fn key_speed_moving() -> Seq<u8> {
    seq![0x76u8, 0x61u8, 0x6cu8, 0x75u8, 0x65u8, 0x5fu8, 0x73u8, 0x70u8, 0x65u8, 0x65u8, 0x64u8, 0x5fu8, 0x6du8, 0x6fu8, 0x76u8, 0x69u8, 0x6eu8, 0x67u8]
}

/// The identifier `value_uphill`.
pub open spec fn key_uphill() -> Seq<u8> {
    seq![0x76u8, 0x61u8, 0x6cu8, 0x75u8, 0x65u8, 0x5fu8, 0x75u8, 0x70u8, 0x68u8, 0x69u8, 0x6cu8, 0x6cu8]
}

/// The identifier `value_downhill`.
pub open spec fn key_downhill() -> Seq<u8> {
    seq![0x76u8, 0x61u8, 0x6cu8, 0x75u8, 0x65u8, 0x5fu8, 0x64u8, 0x6fu8, 0x77u8, 0x6eu8, 0x68u8, 0x69u8, 0x6cu8, 0x6cu8]
}

/// The identifier `value_elevation_max`.
pub open spec fn key_elevation_max() -> Seq<u8> {
    seq![0x76u8, 0x61u8, 0x6cu8, 0x75u8, 0x65u8, 0x5fu8, 0x65u8, 0x6cu8, 0x65u8, 0x76u8, 0x61u8, 0x74u8, 0x69u8, 0x6fu8, 0x6eu8, 0x5fu8, 0x6du8, 0x61u8, 0x78u8]
}

/// The identifier `value_elevation_min`.
pub open spec fn key_elevation_min() -> Seq<u8> {
    seq![0x76u8, 0x61u8, 0x6cu8, 0x75u8, 0x65u8, 0x5fu8, 0x65u8, 0x6cu8, 0x65u8, 0x76u8, 0x61u8, 0x74u8, 0x69u8, 0x6fu8, 0x6eu8, 0x5fu8, 0x6du8, 0x69u8, 0x6eu8]
}

/// The identifier `value_time`.
pub open spec fn key_time() -> Seq<u8> {
    seq![0x76u8, 0x61u8, 0x6cu8, 0x75u8, 0x65u8, 0x5fu8, 0x74u8, 0x69u8, 0x6du8, 0x65u8]
}

/// The identifier `value_moving_time`.
pub open spec fn key_moving_time() -> Seq<u8> {
    seq![0x76u8, 0x61u8, 0x6cu8, 0x75u8, 0x65u8, 0x5fu8, 0x6du8, 0x6fu8, 0x76u8, 0x69u8, 0x6eu8, 0x67u8, 0x5fu8, 0x74u8, 0x69u8, 0x6du8, 0x65u8]
}

/// The identifier `image_map`.
pub open spec fn key_image_map() -> Seq<u8> {
    seq![0x69u8, 0x6du8, 0x61u8, 0x67u8, 0x65u8, 0x5fu8, 0x6du8, 0x61u8, 0x70u8]
}

/// The identifier `path_elevation`.
pub open spec fn key_path_elevation() -> Seq<u8> {
    seq![0x70u8, 0x61u8, 0x74u8, 0x68u8, 0x5fu8, 0x65u8, 0x6cu8, 0x65u8, 0x76u8, 0x61u8, 0x74u8, 0x69u8, 0x6fu8, 0x6eu8]
}

pub fn key_track_name_b() -> (r: Vec<u8>)
    ensures
        r@ == key_track_name(),
{
    let v: Vec<u8> = vec![0x76u8, 0x61u8, 0x6cu8, 0x75u8, 0x65u8, 0x5fu8, 0x74u8, 0x72u8, 0x61u8, 0x63u8, 0x6bu8, 0x5fu8, 0x6eu8, 0x61u8, 0x6du8, 0x65u8];
    assert(v@ =~= key_track_name());
    v
}

pub fn key_distance_b() -> (r: Vec<u8>)
    ensures
        r@ == key_distance(),
{
    let v: Vec<u8> = vec![0x76u8, 0x61u8, 0x6cu8, 0x75u8, 0x65u8, 0x5fu8, 0x64u8, 0x69u8, 0x73u8, 0x74u8, 0x61u8, 0x6eu8, 0x63u8, 0x65u8];
    assert(v@ =~= key_distance());
    v
}

pub fn key_speed_b() -> (r: Vec<u8>)
    ensures
        r@ == key_speed(),
{
    let v: Vec<u8> = vec![0x76u8, 0x61u8, 0x6cu8, 0x75u8, 0x65u8, 0x5fu8, 0x73u8, 0x70u8, 0x65u8, 0x65u8, 0x64u8];
    assert(v@ =~= key_speed());
    v
}

pub fn key_speed_max_b() -> (r: Vec<u8>)
    ensures
        r@ == key_speed_max(),
{
    let v: Vec<u8> = vec![0x76u8, 0x61u8, 0x6cu8, 0x75u8, 0x65u8, 0x5fu8, 0x73u8, 0x70u8, 0x65u8, 0x65u8, 0x64u8, 0x5fu8, 0x6du8, 0x61u8, 0x78u8];
    assert(v@ =~= key_speed_max());
    v
}

pub fn key_speed_moving_b() -> (r: Vec<u8>)
    ensures
        r@ == key_speed_moving(),
{
    let v: Vec<u8> = vec![0x76u8, 0x61u8, 0x6cu8, 0x75u8, 0x65u8, 0x5fu8, 0x73u8, 0x70u8, 0x65u8, 0x65u8, 0x64u8, 0x5fu8, 0x6du8, 0x6fu8, 0x76u8, 0x69u8, 0x6eu8, 0x67u8];
    assert(v@ =~= key_speed_moving());
    v
}

pub fn key_uphill_b() -> (r: Vec<u8>)
    ensures
        r@ == key_uphill(),
{
    let v: Vec<u8> = vec![0x76u8, 0x61u8, 0x6cu8, 0x75u8, 0x65u8, 0x5fu8, 0x75u8, 0x70u8, 0x68u8, 0x69u8, 0x6cu8, 0x6cu8];
    assert(v@ =~= key_uphill());
    v
}

pub fn key_downhill_b() -> (r: Vec<u8>)
    ensures
        r@ == key_downhill(),
{
    let v: Vec<u8> = vec![0x76u8, 0x61u8, 0x6cu8, 0x75u8, 0x65u8, 0x5fu8, 0x64u8, 0x6fu8, 0x77u8, 0x6eu8, 0x68u8, 0x69u8, 0x6cu8, 0x6cu8];
    assert(v@ =~= key_downhill());
    v
}

pub fn key_elevation_max_b() -> (r: Vec<u8>)
    ensures
        r@ == key_elevation_max(),
{
    let v: Vec<u8> = vec![0x76u8, 0x61u8, 0x6cu8, 0x75u8, 0x65u8, 0x5fu8, 0x65u8, 0x6cu8, 0x65u8, 0x76u8, 0x61u8, 0x74u8, 0x69u8, 0x6fu8, 0x6eu8, 0x5fu8, 0x6du8, 0x61u8, 0x78u8];
    assert(v@ =~= key_elevation_max());
    v
}

pub fn key_elevation_min_b() -> (r: Vec<u8>)
    ensures
        r@ == key_elevation_min(),
{
    let v: Vec<u8> = vec![0x76u8, 0x61u8, 0x6cu8, 0x75u8, 0x65u8, 0x5fu8, 0x65u8, 0x6cu8, 0x65u8, 0x76u8, 0x61u8, 0x74u8, 0x69u8, 0x6fu8, 0x6eu8, 0x5fu8, 0x6du8, 0x69u8, 0x6eu8];
    assert(v@ =~= key_elevation_min());
    v
}

pub fn key_time_b() -> (r: Vec<u8>)
    ensures
        r@ == key_time(),
{
    let v: Vec<u8> = vec![0x76u8, 0x61u8, 0x6cu8, 0x75u8, 0x65u8, 0x5fu8, 0x74u8, 0x69u8, 0x6du8, 0x65u8];
    assert(v@ =~= key_time());
    v
}

pub fn key_moving_time_b() -> (r: Vec<u8>)
    ensures
        r@ == key_moving_time(),
{
    let v: Vec<u8> = vec![0x76u8, 0x61u8, 0x6cu8, 0x75u8, 0x65u8, 0x5fu8, 0x6du8, 0x6fu8, 0x76u8, 0x69u8, 0x6eu8, 0x67u8, 0x5fu8, 0x74u8, 0x69u8, 0x6du8, 0x65u8];
    assert(v@ =~= key_moving_time());
    v
}

pub fn key_image_map_b() -> (r: Vec<u8>)
    ensures
        r@ == key_image_map(),
{
    let v: Vec<u8> = vec![0x69u8, 0x6du8, 0x61u8, 0x67u8, 0x65u8, 0x5fu8, 0x6du8, 0x61u8, 0x70u8];
    assert(v@ =~= key_image_map());
    v
}

pub fn key_path_elevation_b() -> (r: Vec<u8>)
    ensures
        r@ == key_path_elevation(),
{
    let v: Vec<u8> = vec![0x70u8, 0x61u8, 0x74u8, 0x68u8, 0x5fu8, 0x65u8, 0x6cu8, 0x65u8, 0x76u8, 0x61u8, 0x74u8, 0x69u8, 0x6fu8, 0x6eu8];
    assert(v@ =~= key_path_elevation());
    v
}

/// The data of one loaded track file.
pub struct ContextData {
    pub track_name: Vec<u8>,
    pub stats: TrackStats,
}

/// The per-load context: statistics and name once loaded, and the memoized
/// rendered map asset, keyed by the pixel size and track color it was
/// rendered with.
pub struct Context {
    pub filename: Vec<u8>,
    pub data: Option<ContextData>,
    pub map_href: Option<Vec<u8>>,
    pub map_size: Option<(u32, u32)>,
    pub map_color: Option<Rgba>,
}

/// The formatted value a text placeholder resolves to.
pub open spec fn spec_get_string(ctx: Context, k: Seq<u8>) -> Option<Seq<u8>> {
    match ctx.data {
        None => None,
        Some(d) => {
            let st = d.stats;
            if k == key_track_name() {
                Some(d.track_name@)
            } else if k == key_distance() {
                Some(fmt_km(st.total_distance_mm as int))
            } else if k == key_speed() {
                Some(fmt_speed(round_m(st.total_distance_mm as int), st.total_time_s as int))
            } else if k == key_speed_max() {
                Some(fmt_speed(st.speed_max_d_m as int, st.speed_max_s as int))
            } else if k == key_speed_moving() {
                Some(fmt_speed(round_m(st.total_distance_mm as int), st.moving_time_s as int))
            } else if k == key_uphill() {
                Some(fmt_m(st.uphill_mm as int))
            } else if k == key_downhill() {
                Some(fmt_m(st.downhill_mm as int))
            } else if k == key_elevation_max() {
                Some(fmt_m(st.elevation_max_mm as int))
            } else if k == key_elevation_min() {
                Some(fmt_m(st.elevation_min_mm as int))
            } else if k == key_time() {
                Some(fmt_hhmmss(st.total_time_s as int))
            } else if k == key_moving_time() {
                Some(fmt_hhmmss(st.moving_time_s as int))
            } else {
                None
            }
        },
    }
}

/// Whether a map request must be rendered anew: the memo is empty, or it
/// was rendered at another size or color.
pub open spec fn spec_needs_render(ctx: Context, w: u32, h: u32, color: Option<Rgba>) -> bool {
    !(ctx.map_href is Some && ctx.map_size == Some((w, h)) && ctx.map_color == color)
}

/// What an image placeholder resolves to: the memoized map asset, only for
/// the map identifier and only when the memo matches the requested size and
/// color exactly; a stale memo is never handed out.
pub open spec fn spec_get_image(ctx: Context, k: Seq<u8>, w: u32, h: u32, color: Option<Rgba>) -> Option<Seq<u8>> {
    if ctx.data is Some && k == key_image_map() && !spec_needs_render(ctx, w, h, color) {
        Some(ctx.map_href->0@)
    } else {
        None
    }
}

impl Context {
    pub open spec fn wf(self) -> bool {
        self.data is Some ==> stats_wf(self.data->0.stats)
    }

    /// A context for the given input file, with nothing loaded.
    pub fn new(filename: Vec<u8>) -> (r: Context)
        ensures
            r.filename@ == filename@,
            r.data is None,
            r.map_href is None,
            r.map_size is None,
            r.map_color is None,
            r.wf(),
    {
        Context { filename, data: None, map_href: None, map_size: None, map_color: None }
    }

    /// Analyzes the parsed tracks and resolves the display name. Succeeds
    /// exactly when the input is within the analyzer's limits; on failure
    /// the context is left as it was.
    pub fn load(&mut self, tracks: &Vec<Track>) -> (r: Result<(), LoadError>)
        ensures
            r is Ok <==> crate::track::tracks_within_limits(tracks_m(tracks@)),
            r is Ok ==> {
                &&& final(self).data is Some
                &&& stats_matches(final(self).data->0.stats, tracks_m(tracks@))
                &&& final(self).data->0.track_name@ == spec_track_name(
                    tracks_m(tracks@),
                    old(self).filename@,
                )
                &&& final(self).filename == old(self).filename
                &&& final(self).map_href == old(self).map_href
                &&& final(self).map_size == old(self).map_size
                &&& final(self).map_color == old(self).map_color
                &&& final(self).wf()
            },
            r is Err ==> *final(self) == *old(self),
    {
        let stats = match crate::track::analyze(tracks) {
            Ok(st) => st,
            Err(e) => {
                return Err(e);
            },
        };
        let name = crate::name::compute_track_name(tracks, self.filename.as_slice());
        self.data = Some(ContextData { track_name: name, stats });
        Ok(())
    }

    /// Drops the memoized map asset.
    pub fn cleanup_temp_files(&mut self)
        ensures
            final(self).map_href is None,
            final(self).map_size is None,
            final(self).map_color is None,
            final(self).filename == old(self).filename,
            final(self).data == old(self).data,
    {
        self.map_href = None;
        self.map_size = None;
        self.map_color = None;
    }

    /// The formatted value of a text placeholder, by its identifier.
    pub fn get_string(&self, k: &[u8]) -> (r: Option<Vec<u8>>)
        requires
            self.wf(),
        ensures
            match r {
                Some(v) => spec_get_string(*self, k@) == Some(v@),
                None => spec_get_string(*self, k@) is None,
            },
    {
        let d = match &self.data {
            Some(d) => d,
            None => {
                return None;
            },
        };
        let st = &d.stats;
        if crate::bytes::bytes_eq(k, key_track_name_b().as_slice()) {
            let mut v: Vec<u8> = Vec::new();
            crate::bytes::push_all(&mut v, d.track_name.as_slice());
            return Some(v);
        }
        if crate::bytes::bytes_eq(k, key_distance_b().as_slice()) {
            return Some(crate::fmt::fmt_km_b(st.total_distance_mm));
        }
        if crate::bytes::bytes_eq(k, key_speed_b().as_slice()) {
            return Some(
                crate::fmt::fmt_speed_b((st.total_distance_mm + 500) / 1000, st.total_time_s),
            );
        }
        if crate::bytes::bytes_eq(k, key_speed_max_b().as_slice()) {
            return Some(crate::fmt::fmt_speed_b(st.speed_max_d_m, st.speed_max_s));
        }
        if crate::bytes::bytes_eq(k, key_speed_moving_b().as_slice()) {
            return Some(
                crate::fmt::fmt_speed_b((st.total_distance_mm + 500) / 1000, st.moving_time_s),
            );
        }
        if crate::bytes::bytes_eq(k, key_uphill_b().as_slice()) {
            return Some(crate::fmt::fmt_m_b(st.uphill_mm as i64));
        }
        if crate::bytes::bytes_eq(k, key_downhill_b().as_slice()) {
            return Some(crate::fmt::fmt_m_b(st.downhill_mm as i64));
        }
        if crate::bytes::bytes_eq(k, key_elevation_max_b().as_slice()) {
            return Some(crate::fmt::fmt_m_b(st.elevation_max_mm));
        }
        if crate::bytes::bytes_eq(k, key_elevation_min_b().as_slice()) {
            return Some(crate::fmt::fmt_m_b(st.elevation_min_mm));
        }
        if crate::bytes::bytes_eq(k, key_time_b().as_slice()) {
            return Some(crate::fmt::get_hhmmss(st.total_time_s));
        }
        if crate::bytes::bytes_eq(k, key_moving_time_b().as_slice()) {
            return Some(crate::fmt::get_hhmmss(st.moving_time_s));
        }
        None
    }

    /// The replacement drawing attribute of a path placeholder: for the
    /// elevation path of a loaded track, the profile scaled into the
    /// descriptor's box; anything else resolves to nothing.
    pub fn get_path(&self, k: &[u8], inp: &crate::path::InputPath) -> (r: Option<Vec<u8>>)
        requires
            self.wf(),
            inp.wf(),
        ensures
            match r {
                Some(v) => self.data is Some && k@ == key_path_elevation() && v@
                    == crate::path::spec_elev_path(
                    crate::track::profile_m(self.data->0.stats.profile@),
                    self.data->0.stats.total_distance_mm as int,
                    self.data->0.stats.elevation_min_mm as int,
                    self.data->0.stats.elevation_max_mm as int,
                    inp.is_absolute,
                    inp.ss@,
                    inp.length_micro as int,
                    inp.height_micro as int,
                ),
                None => self.data is None || k@ != key_path_elevation(),
            },
    {
        let d = match &self.data {
            Some(d) => d,
            None => {
                return None;
            },
        };
        let kpe = key_path_elevation_b();
        if !crate::bytes::bytes_eq(k, kpe.as_slice()) {
            return None;
        }
        Some(
            crate::path::build_elevation_path(
                &d.stats.profile,
                d.stats.total_distance_mm,
                d.stats.elevation_min_mm,
                d.stats.elevation_max_mm,
                inp,
            ),
        )
    }

    /// Whether a map of this size and color is not already memoized.
    pub fn needs_render(&self, w_px: u32, h_px: u32, color: Option<Rgba>) -> (r: bool)
        ensures
            r == spec_needs_render(*self, w_px, h_px, color),
    {
        let size_hit: bool = match &self.map_size {
            Some(s) => s.0 == w_px && s.1 == h_px,
            None => false,
        };
        let color_hit: bool = match (&self.map_color, &color) {
            (Some(a), Some(b)) => a.r == b.r && a.g == b.g && a.b == b.b && a.a == b.a,
            (None, None) => true,
            _ => false,
        };
        let href_hit: bool = match &self.map_href {
            Some(_) => true,
            None => false,
        };
        !(href_hit && size_hit && color_hit)
    }

    /// Memoizes a rendered map asset under its size and color.
    pub fn store_map(&mut self, w_px: u32, h_px: u32, color: Option<Rgba>, href: Vec<u8>)
        ensures
            final(self).map_href == Some(href),
            final(self).map_size == Some((w_px, h_px)),
            final(self).map_color == color,
            final(self).filename == old(self).filename,
            final(self).data == old(self).data,
    {
        self.map_href = Some(href);
        self.map_size = Some((w_px, h_px));
        self.map_color = color;
    }

    /// The memoized map asset for an image placeholder: handed out only for
    /// the map identifier and only when the memo matches the request.
    pub fn get_image(&self, k: &[u8], w_px: u32, h_px: u32, color: Option<Rgba>) -> (r: Option<
        Vec<u8>,
    >)
        ensures
            match r {
                Some(v) => spec_get_image(*self, k@, w_px, h_px, color) == Some(v@),
                None => spec_get_image(*self, k@, w_px, h_px, color) is None,
            },
    {
        match &self.data {
            Some(_) => {},
            None => {
                return None;
            },
        }
        if !crate::bytes::bytes_eq(k, key_image_map_b().as_slice()) {
            return None;
        }
        if self.needs_render(w_px, h_px, color) {
            return None;
        }
        match &self.map_href {
            Some(h) => {
                let mut v: Vec<u8> = Vec::new();
                crate::bytes::push_all(&mut v, h.as_slice());
                Some(v)
            },
            None => None,
        }
    }
}

} // verus!

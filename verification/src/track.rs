//! Track analyzer: turns an ordered stream of geo-tagged, time-stamped points
//! into aggregate ride statistics and a down-sampled elevation profile.
//!
//! Distances are in millimetres, elevations in millimetres, times in whole
//! seconds since the Unix epoch. A speed is kept as the pair of the rounded
//! pair distance in metres and the elapsed seconds; its value in km/h is
//! `3.6 * metres / seconds`.
use vstd::prelude::*;

verus! {

/// Cap on the geodesic distance between two consecutive raw points.
pub const STEP_DIST_MAX_MM: u64 = 1_000_000_000;

/// Cap on the geodesic distance between two consecutive decimated points.
pub const PAIR_DIST_MAX_MM: u64 = 10_000_000_000;

/// Cap on the magnitude of an elevation sample.
pub const ELEV_ABS_MAX_MM: i64 = 100_000_000;

/// Cap on the magnitude of a timestamp.
pub const TIME_ABS_MAX_S: i64 = 10_000_000_000;

/// Cap on the number of points over all tracks of one load.
pub const POINTS_CAP: u64 = 10_000_000;

/// Elevation minimum before any sample is seen.
pub const INIT_ELEV_MIN_MM: i64 = 99_999_000;

/// One raw trackpoint, as delivered by the track-file parser.
pub struct TrackPoint {
    /// Longitude in microdegrees.
    pub lon_udeg: i64,
    /// Latitude in microdegrees.
    pub lat_udeg: i64,
    /// Geodesic distance from the previous point of the same segment;
    /// zero for a segment's first point.
    pub dist_prev_mm: u64,
    /// Elevation, when the source carried one.
    pub elevation_mm: Option<i64>,
    /// Timestamp in seconds since the Unix epoch, when the source carried one.
    pub time_s: Option<i64>,
}

/// One segment of a track, with the geodesic distances between its
/// consecutive decimated points supplied by the caller.
pub struct Segment {
    pub points: Vec<TrackPoint>,
    /// `pair_dist_mm[k]` is the geodesic distance from point `10 k` to
    /// point `10 (k + 1)`; its length must equal the number of decimated
    /// pairs of `points`.
    pub pair_dist_mm: Vec<u64>,
}

/// One track: optional display-name metadata and its ordered segments.
pub struct Track {
    pub name: Option<Vec<u8>>,
    pub segments: Vec<Segment>,
}

pub ghost struct PointM {
    pub lon: int,
    pub lat: int,
    pub d: int,
    pub e: Option<int>,
    pub t: Option<int>,
}

pub ghost struct SegM {
    pub points: Seq<PointM>,
    pub pair_d: Seq<int>,
}

pub ghost struct TrackM {
    pub name: Option<Seq<u8>>,
    pub segs: Seq<SegM>,
}

/// One decimated pair: its geodesic distance and the endpoints' data.
pub ghost struct PairM {
    pub d: int,
    pub t1: Option<int>,
    pub t2: Option<int>,
    pub e1: Option<int>,
    pub e2: Option<int>,
}

impl TrackPoint {
    pub open spec fn m(self) -> PointM {
        PointM {
            lon: self.lon_udeg as int,
            lat: self.lat_udeg as int,
            d: self.dist_prev_mm as int,
            e: match self.elevation_mm {
                Some(e) => Some(e as int),
                None => None,
            },
            t: match self.time_s {
                Some(t) => Some(t as int),
                None => None,
            },
        }
    }
}

impl Segment {
    pub open spec fn m(self) -> SegM {
        SegM {
            points: self.points@.map_values(|p: TrackPoint| p.m()),
            pair_d: self.pair_dist_mm@.map_values(|d: u64| d as int),
        }
    }
}

impl Track {
    pub open spec fn m(self) -> TrackM {
        TrackM {
            name: match self.name {
                Some(n) => Some(n@),
                None => None,
            },
            segs: self.segments@.map_values(|s: Segment| s.m()),
        }
    }
}

pub open spec fn tracks_m(tracks: Seq<Track>) -> Seq<TrackM> {
    tracks.map_values(|t: Track| t.m())
}

/// Number of decimated pairs in a segment of `n` points.
pub open spec fn n_pairs(n: int) -> int {
    if n <= 0 {
        0
    } else {
        (n - 1) / 10
    }
}

/// The decimated pair `k` of a segment.
pub open spec fn mk_pair(s: SegM, k: int) -> PairM {
    PairM {
        d: s.pair_d[k],
        t1: s.points[10 * k].t,
        t2: s.points[10 * (k + 1)].t,
        e1: s.points[10 * k].e,
        e2: s.points[10 * (k + 1)].e,
    }
}

pub open spec fn seg_pairs(s: SegM) -> Seq<PairM> {
    Seq::new(n_pairs(s.points.len() as int) as nat, |k: int| mk_pair(s, k))
}

pub open spec fn track_pairs(t: TrackM) -> Seq<PairM>
    decreases t.segs.len(),
{
    if t.segs.len() == 0 {
        Seq::empty()
    } else {
        track_pairs(TrackM { segs: t.segs.drop_last(), ..t }) + seg_pairs(t.segs.last())
    }
}

/// Every decimated pair of every segment of every track, in document order.
pub open spec fn all_pairs(tracks: Seq<TrackM>) -> Seq<PairM>
    decreases tracks.len(),
{
    if tracks.len() == 0 {
        Seq::empty()
    } else {
        all_pairs(tracks.drop_last()) + track_pairs(tracks.last())
    }
}

pub open spec fn seg_coords(s: SegM) -> Seq<(int, int)> {
    Seq::new(s.points.len(), |i: int| (s.points[i].lon, s.points[i].lat))
}

pub open spec fn track_coords(t: TrackM) -> Seq<(int, int)>
    decreases t.segs.len(),
{
    if t.segs.len() == 0 {
        Seq::empty()
    } else {
        track_coords(TrackM { segs: t.segs.drop_last(), ..t }) + seg_coords(t.segs.last())
    }
}

/// Every raw point's (longitude, latitude), in document order.
pub open spec fn all_coords(tracks: Seq<TrackM>) -> Seq<(int, int)>
    decreases tracks.len(),
{
    if tracks.len() == 0 {
        Seq::empty()
    } else {
        all_coords(tracks.drop_last()) + track_coords(tracks.last())
    }
}

pub open spec fn seg_dist(s: SegM) -> int
    decreases s.points.len(),
{
    if s.points.len() == 0 {
        0
    } else {
        seg_dist(SegM { points: s.points.drop_last(), ..s }) + s.points.last().d
    }
}

pub open spec fn track_dist(t: TrackM) -> int
    decreases t.segs.len(),
{
    if t.segs.len() == 0 {
        0
    } else {
        track_dist(TrackM { segs: t.segs.drop_last(), ..t }) + seg_dist(t.segs.last())
    }
}

/// Full-resolution geodesic length: the sum of every point's distance from
/// its predecessor, over all segments of all tracks.
pub open spec fn all_dist(tracks: Seq<TrackM>) -> int
    decreases tracks.len(),
{
    if tracks.len() == 0 {
        0
    } else {
        all_dist(tracks.drop_last()) + track_dist(tracks.last())
    }
}

pub open spec fn seg_n_points(s: SegM) -> int {
    s.points.len() as int
}

pub open spec fn track_n_points(t: TrackM) -> int
    decreases t.segs.len(),
{
    if t.segs.len() == 0 {
        0
    } else {
        track_n_points(TrackM { segs: t.segs.drop_last(), ..t }) + seg_n_points(t.segs.last())
    }
}

pub open spec fn all_n_points(tracks: Seq<TrackM>) -> int
    decreases tracks.len(),
{
    if tracks.len() == 0 {
        0
    } else {
        all_n_points(tracks.drop_last()) + track_n_points(tracks.last())
    }
}

/// Rounded metres of a non-negative millimetre distance (round half up).
pub open spec fn round_m(d_mm: int) -> int {
    (d_mm + 500) / 1000
}

/// Whether a decimated pair counts toward moving time: its speed in km/h,
/// `3.6 * d_m / s`, exceeds 0.5.
pub open spec fn pair_moving(d_m: int, s: int) -> bool {
    36 * d_m > 5 * s
}

/// Whether speed `3.6 * d1 / s1` exceeds speed `3.6 * d2 / s2`, where a zero
/// second component stands for a speed of zero.
pub open spec fn speed_gt(d1: int, s1: int, d2: int, s2: int) -> bool {
    if s1 == 0 {
        false
    } else if s2 == 0 {
        d1 > 0
    } else {
        d1 * s2 > d2 * s1
    }
}

/// The running aggregate of the analyzer's fold over decimated pairs.
#[verifier::ext_equal]
pub ghost struct StatsM {
    /// Cumulative decimated-pair distance, the x axis of the profile.
    pub cum_mm: int,
    pub total_time_s: int,
    pub moving_time_s: int,
    /// Rounded metres of the fastest pair.
    pub max_d_m: int,
    /// Elapsed seconds of the fastest pair; zero while no pair had a speed.
    pub max_s: int,
    pub uphill_mm: int,
    pub downhill_mm: int,
    pub elevation_min_mm: int,
    pub elevation_max_mm: int,
    /// (cumulative distance mm, elevation mm) samples.
    pub profile: Seq<(int, int)>,
}

pub open spec fn init_stats() -> StatsM {
    StatsM {
        cum_mm: 0,
        total_time_s: 0,
        moving_time_s: 0,
        max_d_m: 0,
        max_s: 0,
        uphill_mm: 0,
        downhill_mm: 0,
        elevation_min_mm: INIT_ELEV_MIN_MM as int,
        elevation_max_mm: 0,
        profile: Seq::empty(),
    }
}

/// One step of the analyzer's fold: the cumulative distance advances by the
/// pair's distance; a pair with a valid positive elapsed time contributes to
/// the time and speed statistics; a pair with elevation on both ends
/// contributes to the climb statistics and appends a profile sample carrying
/// the pair's first elevation.
pub open spec fn step_pair(st: StatsM, p: PairM) -> StatsM {
    let cum = st.cum_mm + p.d;
    let st1 = StatsM { cum_mm: cum, ..st };
    let st2 = if p.t1 is Some && p.t2 is Some && p.t2->0 - p.t1->0 > 0 {
        let s = p.t2->0 - p.t1->0;
        let d_m = round_m(p.d);
        StatsM {
            total_time_s: st1.total_time_s + s,
            moving_time_s: st1.moving_time_s + if pair_moving(d_m, s) {
                s
            } else {
                0
            },
            max_d_m: if speed_gt(d_m, s, st1.max_d_m, st1.max_s) {
                d_m
            } else {
                st1.max_d_m
            },
            max_s: if speed_gt(d_m, s, st1.max_d_m, st1.max_s) {
                s
            } else {
                st1.max_s
            },
            ..st1
        }
    } else {
        st1
    };
    if p.e1 is Some && p.e2 is Some {
        let e1 = p.e1->0;
        let delta = p.e2->0 - e1;
        StatsM {
            uphill_mm: st2.uphill_mm + if delta > 0 {
                delta
            } else {
                0
            },
            downhill_mm: st2.downhill_mm + if delta > 0 {
                0
            } else {
                -delta
            },
            elevation_max_mm: if e1 > st2.elevation_max_mm {
                e1
            } else {
                st2.elevation_max_mm
            },
            elevation_min_mm: if e1 < st2.elevation_min_mm {
                e1
            } else {
                st2.elevation_min_mm
            },
            profile: st2.profile.push((cum, e1)),
            ..st2
        }
    } else {
        st2
    }
}

/// The aggregate after the first `k` pairs.
pub open spec fn fold_pairs(pairs: Seq<PairM>, k: int) -> StatsM
    decreases k,
{
    if k <= 0 {
        init_stats()
    } else {
        step_pair(fold_pairs(pairs, k - 1), pairs[k - 1])
    }
}

/// The analyzer's full result over the decimated pairs of `tracks`.
pub open spec fn analyze_pairs(tracks: Seq<TrackM>) -> StatsM {
    fold_pairs(all_pairs(tracks), all_pairs(tracks).len() as int)
}

pub open spec fn point_in_limits(p: PointM) -> bool {
    &&& 0 <= p.d <= STEP_DIST_MAX_MM
    &&& (p.e is Some ==> -ELEV_ABS_MAX_MM <= p.e->0 <= ELEV_ABS_MAX_MM)
    &&& (p.t is Some ==> -TIME_ABS_MAX_S <= p.t->0 <= TIME_ABS_MAX_S)
}

pub open spec fn seg_in_limits(s: SegM) -> bool {
    &&& s.pair_d.len() == n_pairs(s.points.len() as int)
    &&& forall|i: int| 0 <= i < s.pair_d.len() ==> 0 <= #[trigger] s.pair_d[i] <= PAIR_DIST_MAX_MM
    &&& forall|i: int| 0 <= i < s.points.len() ==> point_in_limits(#[trigger] s.points[i])
}

pub open spec fn track_in_limits(t: TrackM) -> bool {
    forall|i: int| 0 <= i < t.segs.len() ==> seg_in_limits(#[trigger] t.segs[i])
}

/// The exact condition under which a load succeeds: the structural
/// requirement on the decimated distances, the value caps, and the cap on
/// the total number of points.
pub open spec fn tracks_within_limits(tracks: Seq<TrackM>) -> bool {
    &&& forall|i: int| 0 <= i < tracks.len() ==> track_in_limits(#[trigger] tracks[i])
    &&& all_n_points(tracks) <= POINTS_CAP
}

pub open spec fn pair_in_limits(p: PairM) -> bool {
    &&& 0 <= p.d <= PAIR_DIST_MAX_MM
    &&& (p.e1 is Some ==> -ELEV_ABS_MAX_MM <= p.e1->0 <= ELEV_ABS_MAX_MM)
    &&& (p.e2 is Some ==> -ELEV_ABS_MAX_MM <= p.e2->0 <= ELEV_ABS_MAX_MM)
    &&& (p.t1 is Some ==> -TIME_ABS_MAX_S <= p.t1->0 <= TIME_ABS_MAX_S)
    &&& (p.t2 is Some ==> -TIME_ABS_MAX_S <= p.t2->0 <= TIME_ABS_MAX_S)
}

/// The range every fold state stays in after `k` pairs, each within limits.
pub open spec fn stats_in_range(st: StatsM, k: int) -> bool {
    &&& 0 <= st.cum_mm <= k * (PAIR_DIST_MAX_MM as int)
    &&& 0 <= st.total_time_s <= k * (2 * TIME_ABS_MAX_S as int)
    &&& 0 <= st.moving_time_s <= st.total_time_s
    &&& 0 <= st.max_d_m <= round_m(PAIR_DIST_MAX_MM as int)
    &&& 0 <= st.max_s <= 2 * TIME_ABS_MAX_S
    &&& 0 <= st.uphill_mm <= k * (2 * ELEV_ABS_MAX_MM as int)
    &&& 0 <= st.downhill_mm <= k * (2 * ELEV_ABS_MAX_MM as int)
    &&& -ELEV_ABS_MAX_MM <= st.elevation_max_mm <= ELEV_ABS_MAX_MM
    &&& -ELEV_ABS_MAX_MM <= st.elevation_min_mm <= INIT_ELEV_MIN_MM
    &&& st.profile.len() <= k
}

pub proof fn lemma_fold_in_range(pairs: Seq<PairM>, k: int)
    requires
        0 <= k <= pairs.len(),
        forall|i: int| 0 <= i < pairs.len() ==> pair_in_limits(#[trigger] pairs[i]),
    ensures
        stats_in_range(fold_pairs(pairs, k), k),
    decreases k,
{
    if k > 0 {
        lemma_fold_in_range(pairs, k - 1);
    }
}

/// Every profile sample's elevation lies between the aggregate's elevation
/// minimum and maximum, and later fold states only widen that band.
pub proof fn lemma_profile_bounded(pairs: Seq<PairM>, k: int)
    requires
        0 <= k,
    ensures
        forall|i: int|
            0 <= i < fold_pairs(pairs, k).profile.len() ==> {
                &&& fold_pairs(pairs, k).elevation_min_mm <= (#[trigger] fold_pairs(
                    pairs,
                    k,
                ).profile[i]).1
                &&& (#[trigger] fold_pairs(pairs, k).profile[i]).1 <= fold_pairs(
                    pairs,
                    k,
                ).elevation_max_mm
            },
    decreases k,
{
    if k > 0 {
        lemma_profile_bounded(pairs, k - 1);
        let st = fold_pairs(pairs, k - 1);
        let st2 = fold_pairs(pairs, k);
        assert(st2 == step_pair(st, pairs[k - 1]));
        assert(st2.elevation_min_mm <= st.elevation_min_mm);
        assert(st2.elevation_max_mm >= st.elevation_max_mm);
        assert forall|i: int| 0 <= i < st2.profile.len() implies {
            &&& st2.elevation_min_mm <= (#[trigger] st2.profile[i]).1
            &&& st2.profile[i].1 <= st2.elevation_max_mm
        } by {
            if i < st.profile.len() {
                assert(st2.profile[i] == st.profile[i]);
                assert(st.elevation_min_mm <= st.profile[i].1 <= st.elevation_max_mm);
            }
        }
    }
}

/// Moving time never exceeds total time.
pub proof fn lemma_moving_le_total(pairs: Seq<PairM>, k: int)
    requires
        0 <= k,
    ensures
        0 <= fold_pairs(pairs, k).moving_time_s <= fold_pairs(pairs, k).total_time_s,
    decreases k,
{
    if k > 0 {
        lemma_moving_le_total(pairs, k - 1);
    }
}

pub open spec fn with_segs(t: TrackM, segs: Seq<SegM>) -> TrackM {
    TrackM { segs, ..t }
}

pub open spec fn with_points(s: SegM, points: Seq<PointM>) -> SegM {
    SegM { points, ..s }
}

pub proof fn lemma_all_pairs_take(s: Seq<TrackM>, i: int)
    requires
        0 <= i < s.len(),
    ensures
        all_pairs(s.take(i + 1)) == all_pairs(s.take(i)) + track_pairs(s[i]),
{
    assert(s.take(i + 1).drop_last() =~= s.take(i));
    assert(s.take(i + 1).last() == s[i]);
}

pub proof fn lemma_track_pairs_take(t: TrackM, j: int)
    requires
        0 <= j < t.segs.len(),
    ensures
        track_pairs(with_segs(t, t.segs.take(j + 1))) == track_pairs(with_segs(t, t.segs.take(j)))
            + seg_pairs(t.segs[j]),
{
    let a = with_segs(t, t.segs.take(j + 1));
    assert(a.segs.drop_last() =~= t.segs.take(j));
    assert(a.segs.last() == t.segs[j]);
    assert(with_segs(a, a.segs.drop_last()) == with_segs(t, t.segs.take(j)));
}

pub proof fn lemma_all_coords_take(s: Seq<TrackM>, i: int)
    requires
        0 <= i < s.len(),
    ensures
        all_coords(s.take(i + 1)) == all_coords(s.take(i)) + track_coords(s[i]),
{
    assert(s.take(i + 1).drop_last() =~= s.take(i));
    assert(s.take(i + 1).last() == s[i]);
}

pub proof fn lemma_track_coords_take(t: TrackM, j: int)
    requires
        0 <= j < t.segs.len(),
    ensures
        track_coords(with_segs(t, t.segs.take(j + 1))) == track_coords(
            with_segs(t, t.segs.take(j)),
        ) + seg_coords(t.segs[j]),
{
    let a = with_segs(t, t.segs.take(j + 1));
    assert(a.segs.drop_last() =~= t.segs.take(j));
    assert(a.segs.last() == t.segs[j]);
    assert(with_segs(a, a.segs.drop_last()) == with_segs(t, t.segs.take(j)));
}

pub proof fn lemma_all_dist_take(s: Seq<TrackM>, i: int)
    requires
        0 <= i < s.len(),
    ensures
        all_dist(s.take(i + 1)) == all_dist(s.take(i)) + track_dist(s[i]),
{
    assert(s.take(i + 1).drop_last() =~= s.take(i));
    assert(s.take(i + 1).last() == s[i]);
}

pub proof fn lemma_track_dist_take(t: TrackM, j: int)
    requires
        0 <= j < t.segs.len(),
    ensures
        track_dist(with_segs(t, t.segs.take(j + 1))) == track_dist(with_segs(t, t.segs.take(j)))
            + seg_dist(t.segs[j]),
{
    let a = with_segs(t, t.segs.take(j + 1));
    assert(a.segs.drop_last() =~= t.segs.take(j));
    assert(a.segs.last() == t.segs[j]);
    assert(with_segs(a, a.segs.drop_last()) == with_segs(t, t.segs.take(j)));
}

pub proof fn lemma_seg_dist_take(s: SegM, k: int)
    requires
        0 <= k < s.points.len(),
    ensures
        seg_dist(with_points(s, s.points.take(k + 1))) == seg_dist(with_points(s, s.points.take(k)))
            + s.points[k].d,
{
    let a = with_points(s, s.points.take(k + 1));
    assert(a.points.drop_last() =~= s.points.take(k));
    assert(a.points.last() == s.points[k]);
    assert(with_points(a, a.points.drop_last()) == with_points(s, s.points.take(k)));
}

pub proof fn lemma_all_n_points_take(s: Seq<TrackM>, i: int)
    requires
        0 <= i < s.len(),
    ensures
        all_n_points(s.take(i + 1)) == all_n_points(s.take(i)) + track_n_points(s[i]),
{
    assert(s.take(i + 1).drop_last() =~= s.take(i));
    assert(s.take(i + 1).last() == s[i]);
}

pub proof fn lemma_track_n_points_take(t: TrackM, j: int)
    requires
        0 <= j < t.segs.len(),
    ensures
        track_n_points(with_segs(t, t.segs.take(j + 1))) == track_n_points(
            with_segs(t, t.segs.take(j)),
        ) + seg_n_points(t.segs[j]),
{
    let a = with_segs(t, t.segs.take(j + 1));
    assert(a.segs.drop_last() =~= t.segs.take(j));
    assert(a.segs.last() == t.segs[j]);
    assert(with_segs(a, a.segs.drop_last()) == with_segs(t, t.segs.take(j)));
}

pub proof fn lemma_track_n_points_nonneg(t: TrackM)
    ensures
        0 <= track_n_points(t),
    decreases t.segs.len(),
{
    if t.segs.len() > 0 {
        lemma_track_n_points_nonneg(with_segs(t, t.segs.drop_last()));
    }
}

pub proof fn lemma_all_n_points_nonneg(s: Seq<TrackM>)
    ensures
        0 <= all_n_points(s),
    decreases s.len(),
{
    if s.len() > 0 {
        lemma_all_n_points_nonneg(s.drop_last());
        lemma_track_n_points_nonneg(s.last());
    }
}

pub proof fn lemma_track_n_points_prefix_le(t: TrackM, j: int)
    requires
        0 <= j <= t.segs.len(),
    ensures
        track_n_points(with_segs(t, t.segs.take(j))) <= track_n_points(t),
    decreases t.segs.len() - j,
{
    if j == t.segs.len() {
        assert(t.segs.take(j) =~= t.segs);
        assert(with_segs(t, t.segs) == t);
    } else {
        lemma_track_n_points_take(t, j);
        lemma_track_n_points_prefix_le(t, j + 1);
    }
}

pub proof fn lemma_all_n_points_prefix_le(s: Seq<TrackM>, i: int)
    requires
        0 <= i <= s.len(),
    ensures
        all_n_points(s.take(i)) <= all_n_points(s),
    decreases s.len() - i,
{
    if i == s.len() {
        assert(s.take(i) =~= s);
    } else {
        lemma_all_n_points_take(s, i);
        lemma_track_n_points_nonneg(s[i]);
        lemma_all_n_points_prefix_le(s, i + 1);
    }
}

pub proof fn lemma_seg_pairs_limits(s: SegM)
    requires
        seg_in_limits(s),
    ensures
        forall|k: int|
            0 <= k < seg_pairs(s).len() ==> pair_in_limits(#[trigger] seg_pairs(s)[k]),
        seg_pairs(s).len() <= seg_n_points(s),
{
    let n = s.points.len() as int;
    assert forall|k: int| 0 <= k < seg_pairs(s).len() implies pair_in_limits(
        #[trigger] seg_pairs(s)[k],
    ) by {
        assert(k + 1 <= (n - 1) / 10);
        assert(((n - 1) / 10) * 10 <= n - 1) by (nonlinear_arith)
            requires
                n >= 1,
        ;
        assert(10 * (k + 1) <= n - 1) by (nonlinear_arith)
            requires
                k + 1 <= (n - 1) / 10,
                ((n - 1) / 10) * 10 <= n - 1,
        ;
        assert(point_in_limits(s.points[10 * k]));
        assert(point_in_limits(s.points[10 * (k + 1)]));
    }
}

pub proof fn lemma_track_pairs_limits(t: TrackM)
    requires
        track_in_limits(t),
    ensures
        forall|k: int|
            0 <= k < track_pairs(t).len() ==> pair_in_limits(#[trigger] track_pairs(t)[k]),
        track_pairs(t).len() <= track_n_points(t),
    decreases t.segs.len(),
{
    if t.segs.len() > 0 {
        let pre = with_segs(t, t.segs.drop_last());
        assert(track_in_limits(pre)) by {
            assert(forall|i: int|
                0 <= i < pre.segs.len() ==> pre.segs[i] == t.segs[i] && seg_in_limits(
                    #[trigger] t.segs[i],
                ));
        }
        lemma_track_pairs_limits(pre);
        lemma_seg_pairs_limits(t.segs.last());
    }
}

pub proof fn lemma_all_pairs_limits(s: Seq<TrackM>)
    requires
        forall|i: int| 0 <= i < s.len() ==> track_in_limits(#[trigger] s[i]),
    ensures
        forall|k: int|
            0 <= k < all_pairs(s).len() ==> pair_in_limits(#[trigger] all_pairs(s)[k]),
        all_pairs(s).len() <= all_n_points(s),
    decreases s.len(),
{
    if s.len() > 0 {
        lemma_all_pairs_limits(s.drop_last());
        lemma_track_pairs_limits(s.last());
    }
}

/// One flattened decimated pair, ready for the statistics fold.
pub struct Pair {
    pub d_mm: u64,
    pub t1: Option<i64>,
    pub t2: Option<i64>,
    pub e1: Option<i64>,
    pub e2: Option<i64>,
}

impl Pair {
    pub open spec fn m(self) -> PairM {
        PairM {
            d: self.d_mm as int,
            t1: match self.t1 {
                Some(t) => Some(t as int),
                None => None,
            },
            t2: match self.t2 {
                Some(t) => Some(t as int),
                None => None,
            },
            e1: match self.e1 {
                Some(e) => Some(e as int),
                None => None,
            },
            e2: match self.e2 {
                Some(e) => Some(e as int),
                None => None,
            },
        }
    }
}

/// One elevation-profile sample.
pub struct ElevPoint {
    pub dist_mm: u64,
    pub elev_mm: i64,
}

/// One raw coordinate, kept for the map-rendering collaborator.
pub struct Coord {
    pub lon_udeg: i64,
    pub lat_udeg: i64,
}

pub open spec fn pairs_m(pairs: Seq<Pair>) -> Seq<PairM> {
    pairs.map_values(|p: Pair| p.m())
}

pub open spec fn coords_m(coords: Seq<Coord>) -> Seq<(int, int)> {
    coords.map_values(|c: Coord| (c.lon_udeg as int, c.lat_udeg as int))
}

pub open spec fn profile_m(profile: Seq<ElevPoint>) -> Seq<(int, int)> {
    profile.map_values(|e: ElevPoint| (e.dist_mm as int, e.elev_mm as int))
}

/// Checks the caps that keep every accumulation of the analysis inside the
/// machine's integer ranges, and the structural requirement that each
/// segment carries one decimated distance per decimated pair.
#[verifier::loop_isolation(false)]
pub fn check_limits(tracks: &Vec<Track>) -> (r: bool)
    ensures
        r == tracks_within_limits(tracks_m(tracks@)),
{
    let ghost tm = tracks_m(tracks@);
    let mut count: u64 = 0;
    let mut i: usize = 0;
    while i < tracks.len()
        invariant
            0 <= i <= tracks@.len(),
            forall|a: int| 0 <= a < i ==> track_in_limits(#[trigger] tm[a]),
            count == all_n_points(tm.take(i as int)),
            count <= POINTS_CAP,
        decreases tracks@.len() - i,
    {
        let t = &tracks[i];
        let ghost ttm = tm[i as int];
        assert(ttm == tracks@[i as int].m());
        let mut j: usize = 0;
        while j < t.segments.len()
            invariant
                0 <= j <= t.segments@.len(),
                ttm.segs.len() == t.segments@.len(),
                forall|b: int| 0 <= b < j ==> seg_in_limits(#[trigger] ttm.segs[b]),
                count == all_n_points(tm.take(i as int)) + track_n_points(
                    with_segs(ttm, ttm.segs.take(j as int)),
                ),
                count <= POINTS_CAP,
            decreases t.segments@.len() - j,
        {
            let s = &t.segments[j];
            let ghost sm = ttm.segs[j as int];
            assert(sm == t.segments@[j as int].m());
            let n: usize = s.points.len();
            let expected: usize = if n == 0 {
                0
            } else {
                (n - 1) / 10
            };
            if s.pair_dist_mm.len() != expected {
                assert(!seg_in_limits(sm));
                assert(!track_in_limits(tm[i as int]));
                return false;
            }
            let mut k: usize = 0;
            while k < s.pair_dist_mm.len()
                invariant
                    0 <= k <= s.pair_dist_mm@.len(),
                    forall|c: int|
                        0 <= c < k ==> 0 <= #[trigger] sm.pair_d[c] <= PAIR_DIST_MAX_MM,
                decreases s.pair_dist_mm@.len() - k,
            {
                if s.pair_dist_mm[k] > PAIR_DIST_MAX_MM {
                    assert(sm.pair_d[k as int] > PAIR_DIST_MAX_MM);
                    assert(!seg_in_limits(sm));
                    assert(!track_in_limits(tm[i as int]));
                    return false;
                }
                k = k + 1;
            }
            let mut k: usize = 0;
            while k < s.points.len()
                invariant
                    0 <= k <= s.points@.len(),
                    forall|c: int| 0 <= c < k ==> point_in_limits(#[trigger] sm.points[c]),
                    count == all_n_points(tm.take(i as int)) + track_n_points(
                        with_segs(ttm, ttm.segs.take(j as int)),
                    ) + k,
                    count <= POINTS_CAP,
                decreases s.points@.len() - k,
            {
                let p = &s.points[k];
                assert(sm.points[k as int] == s.points@[k as int].m());
                let mut bad: bool = false;
                if p.dist_prev_mm > STEP_DIST_MAX_MM {
                    bad = true;
                }
                match p.elevation_mm {
                    Some(e) => if e > ELEV_ABS_MAX_MM || e < -ELEV_ABS_MAX_MM {
                        bad = true;
                    },
                    None => {},
                }
                match p.time_s {
                    Some(tv) => if tv > TIME_ABS_MAX_S || tv < -TIME_ABS_MAX_S {
                        bad = true;
                    },
                    None => {},
                }
                if bad {
                    assert(!point_in_limits(sm.points[k as int]));
                    assert(!seg_in_limits(sm));
                    assert(!track_in_limits(tm[i as int]));
                    return false;
                }
                if count >= POINTS_CAP {
                    proof {
                        lemma_track_n_points_take(ttm, j as int);
                        lemma_track_n_points_prefix_le(ttm, j as int + 1);
                        lemma_all_n_points_take(tm, i as int);
                        lemma_all_n_points_prefix_le(tm, i as int + 1);
                        assert(all_n_points(tm) > POINTS_CAP);
                    }
                    return false;
                }
                count = count + 1;
                k = k + 1;
            }
            proof {
                assert(seg_in_limits(sm)) by {
                    assert(forall|c: int|
                        0 <= c < sm.pair_d.len() ==> 0 <= #[trigger] sm.pair_d[c]
                            <= PAIR_DIST_MAX_MM);
                }
                lemma_track_n_points_take(ttm, j as int);
            }
            j = j + 1;
        }
        proof {
            assert(ttm.segs.take(ttm.segs.len() as int) =~= ttm.segs);
            assert(with_segs(ttm, ttm.segs) == ttm);
            assert(track_in_limits(ttm));
            lemma_all_n_points_take(tm, i as int);
        }
        i = i + 1;
    }
    proof {
        assert(tm.take(tm.len() as int) =~= tm);
    }
    true
}

/// Flattens the tracks into the decimated pairs, the raw coordinates, and
/// the full-resolution distance the analysis folds over.
#[verifier::loop_isolation(false)]
pub fn flatten(tracks: &Vec<Track>) -> (r: (Vec<Pair>, Vec<Coord>, u64))
    requires
        tracks_within_limits(tracks_m(tracks@)),
    ensures
        pairs_m(r.0@) == all_pairs(tracks_m(tracks@)),
        coords_m(r.1@) == all_coords(tracks_m(tracks@)),
        r.2 == all_dist(tracks_m(tracks@)),
        r.2 <= 10_000_000_000_000_000,
{
    let ghost tm = tracks_m(tracks@);
    let mut pairs: Vec<Pair> = Vec::new();
    let mut coords: Vec<Coord> = Vec::new();
    let mut dist: u64 = 0;
    let mut count: u64 = 0;
    let mut i: usize = 0;
    while i < tracks.len()
        invariant
            0 <= i <= tracks@.len(),
            pairs_m(pairs@) == all_pairs(tm.take(i as int)),
            coords_m(coords@) == all_coords(tm.take(i as int)),
            dist == all_dist(tm.take(i as int)),
            count == all_n_points(tm.take(i as int)),
            count <= POINTS_CAP,
            dist <= count * (STEP_DIST_MAX_MM as int),
        decreases tracks@.len() - i,
    {
        let t = &tracks[i];
        let ghost ttm = tm[i as int];
        assert(ttm == tracks@[i as int].m());
        assert(track_in_limits(ttm));
        let mut j: usize = 0;
        while j < t.segments.len()
            invariant
                0 <= j <= t.segments@.len(),
                ttm.segs.len() == t.segments@.len(),
                pairs_m(pairs@) == all_pairs(tm.take(i as int)) + track_pairs(
                    with_segs(ttm, ttm.segs.take(j as int)),
                ),
                coords_m(coords@) == all_coords(tm.take(i as int)) + track_coords(
                    with_segs(ttm, ttm.segs.take(j as int)),
                ),
                dist == all_dist(tm.take(i as int)) + track_dist(
                    with_segs(ttm, ttm.segs.take(j as int)),
                ),
                count == all_n_points(tm.take(i as int)) + track_n_points(
                    with_segs(ttm, ttm.segs.take(j as int)),
                ),
                count <= POINTS_CAP,
                dist <= count * (STEP_DIST_MAX_MM as int),
            decreases t.segments@.len() - j,
        {
            let s = &t.segments[j];
            let ghost sm = ttm.segs[j as int];
            assert(sm == t.segments@[j as int].m());
            assert(seg_in_limits(sm));
            let n: usize = s.points.len();
            assert(sm.points.len() == n);

            // Raw points: coordinates and the full-resolution distance.
            let mut k: usize = 0;
            while k < n
                invariant
                    0 <= k <= n,
                    n == s.points@.len(),
                    coords_m(coords@) == all_coords(tm.take(i as int)) + track_coords(
                        with_segs(ttm, ttm.segs.take(j as int)),
                    ) + seg_coords(sm).take(k as int),
                    dist == all_dist(tm.take(i as int)) + track_dist(
                        with_segs(ttm, ttm.segs.take(j as int)),
                    ) + seg_dist(with_points(sm, sm.points.take(k as int))),
                    count == all_n_points(tm.take(i as int)) + track_n_points(
                        with_segs(ttm, ttm.segs.take(j as int)),
                    ) + k,
                    count <= POINTS_CAP,
                    dist <= count * (STEP_DIST_MAX_MM as int),
                decreases n - k,
            {
                let p = &s.points[k];
                assert(sm.points[k as int] == s.points@[k as int].m());
                assert(point_in_limits(sm.points[k as int]));
                proof {
                    lemma_track_n_points_take(ttm, j as int);
                    lemma_track_n_points_prefix_le(ttm, j as int + 1);
                    lemma_all_n_points_take(tm, i as int);
                    lemma_all_n_points_prefix_le(tm, i as int + 1);
                    assert(count + 1 <= POINTS_CAP);
                }
                let ghost cpre = coords@;
                coords.push(Coord { lon_udeg: p.lon_udeg, lat_udeg: p.lat_udeg });
                dist = dist + p.dist_prev_mm;
                count = count + 1;
                proof {
                    lemma_seg_dist_take(sm, k as int);
                    assert(seg_coords(sm).take(k as int + 1) =~= seg_coords(sm).take(
                        k as int,
                    ).push((sm.points[k as int].lon, sm.points[k as int].lat)));
                    assert(coords@ == cpre.push(
                        Coord { lon_udeg: p.lon_udeg, lat_udeg: p.lat_udeg },
                    ));
                    assert(coords_m(coords@) =~= coords_m(cpre).push(
                        (p.lon_udeg as int, p.lat_udeg as int),
                    )) by {
                        assert(forall|c: int|
                            0 <= c < cpre.len() ==> coords@[c] == cpre[c] && coords_m(coords@)[c]
                                == coords_m(cpre)[c]);
                        assert(coords_m(coords@)[cpre.len() as int] == (
                            p.lon_udeg as int,
                            p.lat_udeg as int,
                        ));
                    }
                    assert(coords_m(coords@) =~= all_coords(tm.take(i as int)) + track_coords(
                        with_segs(ttm, ttm.segs.take(j as int)),
                    ) + seg_coords(sm).take(k as int + 1));
                }
                k = k + 1;
            }
            proof {
                assert(seg_coords(sm).take(n as int) =~= seg_coords(sm));
                assert(sm.points.take(n as int) =~= sm.points);
                assert(with_points(sm, sm.points) == sm);
                lemma_track_coords_take(ttm, j as int);
                lemma_track_dist_take(ttm, j as int);
                lemma_track_n_points_take(ttm, j as int);
            }

            // Decimated pairs.
            let np: usize = s.pair_dist_mm.len();
            assert(np == n_pairs(n as int));
            let mut k: usize = 0;
            while k < np
                invariant
                    0 <= k <= np,
                    np == s.pair_dist_mm@.len(),
                    np == n_pairs(sm.points.len() as int),
                    n == s.points@.len(),
                    pairs_m(pairs@) == all_pairs(tm.take(i as int)) + track_pairs(
                        with_segs(ttm, ttm.segs.take(j as int)),
                    ) + seg_pairs(sm).take(k as int),
                decreases np - k,
            {
                assert(10 * (k as int + 1) <= n - 1) by (nonlinear_arith)
                    requires
                        k as int + 1 <= (n as int - 1) / 10,
                        n >= 1,
                ;
                let i1: usize = 10 * k;
                let i2: usize = 10 * k + 10;
                let p1 = &s.points[i1];
                let p2 = &s.points[i2];
                let pair = Pair {
                    d_mm: s.pair_dist_mm[k],
                    t1: p1.time_s,
                    t2: p2.time_s,
                    e1: p1.elevation_mm,
                    e2: p2.elevation_mm,
                };
                proof {
                    assert(sm.points[i1 as int] == s.points@[i1 as int].m());
                    assert(sm.points[i2 as int] == s.points@[i2 as int].m());
                    assert(sm.pair_d[k as int] == s.pair_dist_mm@[k as int] as int);
                    assert(pair.m() == mk_pair(sm, k as int));
                }
                let ghost ppre = pairs@;
                pairs.push(pair);
                proof {
                    assert(seg_pairs(sm).take(k as int + 1) =~= seg_pairs(sm).take(k as int).push(
                        mk_pair(sm, k as int),
                    ));
                    assert(pairs@ == ppre.push(pair));
                    assert(pairs_m(pairs@) =~= pairs_m(ppre).push(pair.m())) by {
                        assert(forall|c: int|
                            0 <= c < ppre.len() ==> pairs@[c] == ppre[c] && pairs_m(pairs@)[c]
                                == pairs_m(ppre)[c]);
                        assert(pairs_m(pairs@)[ppre.len() as int] == pair.m());
                    }
                    assert(pairs_m(pairs@) =~= all_pairs(tm.take(i as int)) + track_pairs(
                        with_segs(ttm, ttm.segs.take(j as int)),
                    ) + seg_pairs(sm).take(k as int + 1));
                }
                k = k + 1;
            }
            proof {
                assert(seg_pairs(sm).take(np as int) =~= seg_pairs(sm));
                lemma_track_pairs_take(ttm, j as int);
            }
            j = j + 1;
        }
        proof {
            assert(ttm.segs.take(ttm.segs.len() as int) =~= ttm.segs);
            assert(with_segs(ttm, ttm.segs) == ttm);
            lemma_all_pairs_take(tm, i as int);
            lemma_all_coords_take(tm, i as int);
            lemma_all_dist_take(tm, i as int);
            lemma_all_n_points_take(tm, i as int);
        }
        i = i + 1;
    }
    proof {
        assert(tm.take(tm.len() as int) =~= tm);
    }
    (pairs, coords, dist)
}

/// The running aggregate of the executable fold; mirrors the model state.
pub struct StatsAcc {
    pub cum_mm: u64,
    pub total_time_s: u64,
    pub moving_time_s: u64,
    pub max_d_m: u64,
    pub max_s: u64,
    pub uphill_mm: u64,
    pub downhill_mm: u64,
    pub elevation_min_mm: i64,
    pub elevation_max_mm: i64,
    pub profile: Vec<ElevPoint>,
}

impl StatsAcc {
    pub open spec fn m(self) -> StatsM {
        StatsM {
            cum_mm: self.cum_mm as int,
            total_time_s: self.total_time_s as int,
            moving_time_s: self.moving_time_s as int,
            max_d_m: self.max_d_m as int,
            max_s: self.max_s as int,
            uphill_mm: self.uphill_mm as int,
            downhill_mm: self.downhill_mm as int,
            elevation_min_mm: self.elevation_min_mm as int,
            elevation_max_mm: self.elevation_max_mm as int,
            profile: profile_m(self.profile@),
        }
    }
}

/// Folds the statistics over the flattened decimated pairs.
#[verifier::loop_isolation(false)]
pub fn fold_stats(pairs: &Vec<Pair>) -> (acc: StatsAcc)
    requires
        forall|i: int| 0 <= i < pairs@.len() ==> pair_in_limits(#[trigger] pairs@[i].m()),
        pairs@.len() <= POINTS_CAP,
    ensures
        acc.m() == fold_pairs(pairs_m(pairs@), pairs@.len() as int),
{
    let ghost pm = pairs_m(pairs@);
    let mut acc = StatsAcc {
        cum_mm: 0,
        total_time_s: 0,
        moving_time_s: 0,
        max_d_m: 0,
        max_s: 0,
        uphill_mm: 0,
        downhill_mm: 0,
        elevation_min_mm: INIT_ELEV_MIN_MM,
        elevation_max_mm: 0,
        profile: Vec::new(),
    };
    assert(acc.m() =~= init_stats());
    let mut i: usize = 0;
    while i < pairs.len()
        invariant
            0 <= i <= pairs@.len(),
            acc.m() == fold_pairs(pm, i as int),
        decreases pairs@.len() - i,
    {
        proof {
            lemma_fold_in_range(pm, i as int);
            assert(pairs@[i as int].m() == pm[i as int]);
            assert(pair_in_limits(pm[i as int]));
        }
        let ghost pre = acc.m();
        let p = &pairs[i];
        let d: u64 = p.d_mm;
        acc.cum_mm = acc.cum_mm + d;
        match (p.t1, p.t2) {
            (Some(t1), Some(t2)) => {
                if t2 - t1 > 0 {
                    let sec: u64 = (t2 - t1) as u64;
                    let d_m: u64 = (d + 500) / 1000;
                    proof {
                        assert(0 <= i as int <= 10_000_000);
                        assert(acc.total_time_s <= (i as int) * 20_000_000_000);
                        assert(sec <= 20_000_000_000);
                        assert(d_m <= 10_000_001);
                        assert(acc.max_d_m <= 10_000_001);
                        assert(acc.max_s <= 20_000_000_000);
                        assert(d_m * acc.max_s <= 300_000_000_000_000_000) by (nonlinear_arith)
                            requires
                                0 <= d_m <= 10_000_001,
                                0 <= acc.max_s <= 20_000_000_000,
                        ;
                        assert(acc.max_d_m * sec <= 300_000_000_000_000_000) by (nonlinear_arith)
                            requires
                                0 <= acc.max_d_m <= 10_000_001,
                                0 <= sec <= 20_000_000_000,
                        ;
                    }
                    acc.total_time_s = acc.total_time_s + sec;
                    if 36 * d_m > 5 * sec {
                        acc.moving_time_s = acc.moving_time_s + sec;
                    }
                    let gt: bool = if acc.max_s == 0 {
                        d_m > 0
                    } else {
                        d_m * acc.max_s > acc.max_d_m * sec
                    };
                    assert(gt == speed_gt(d_m as int, sec as int, pre.max_d_m, pre.max_s));
                    if gt {
                        acc.max_d_m = d_m;
                        acc.max_s = sec;
                    }
                }
            },
            _ => {},
        }
        match (p.e1, p.e2) {
            (Some(e1), Some(e2)) => {
                let delta: i64 = e2 - e1;
                proof {
                    assert(0 <= i as int <= 10_000_000);
                    assert(acc.uphill_mm <= (i as int) * 200_000_000);
                    assert(acc.downhill_mm <= (i as int) * 200_000_000);
                }
                if delta > 0 {
                    acc.uphill_mm = acc.uphill_mm + (delta as u64);
                } else {
                    acc.downhill_mm = acc.downhill_mm + ((-delta) as u64);
                }
                if e1 > acc.elevation_max_mm {
                    acc.elevation_max_mm = e1;
                }
                if e1 < acc.elevation_min_mm {
                    acc.elevation_min_mm = e1;
                }
                let ghost fpre = acc.profile@;
                acc.profile.push(ElevPoint { dist_mm: acc.cum_mm, elev_mm: e1 });
                proof {
                    assert(acc.profile@ == fpre.push(
                        ElevPoint { dist_mm: acc.cum_mm, elev_mm: e1 },
                    ));
                    assert(profile_m(acc.profile@) =~= profile_m(fpre).push(
                        (acc.cum_mm as int, e1 as int),
                    )) by {
                        assert(forall|c: int|
                            0 <= c < fpre.len() ==> acc.profile@[c] == fpre[c] && profile_m(
                                acc.profile@,
                            )[c] == profile_m(fpre)[c]);
                        assert(profile_m(acc.profile@)[fpre.len() as int] == (
                            acc.cum_mm as int,
                            e1 as int,
                        ));
                    }
                }
            },
            _ => {},
        }
        proof {
            assert(profile_m(acc.profile@) =~= step_pair(pre, pm[i as int]).profile);
            assert(acc.m() == step_pair(pre, pm[i as int]));
        }
        i = i + 1;
    }
    acc
}

/// Bounds of every elevation-profile sample of a fold over pairs within
/// limits.
pub proof fn lemma_profile_values(pairs: Seq<PairM>, k: int)
    requires
        0 <= k <= pairs.len(),
        pairs.len() <= POINTS_CAP,
        forall|i: int| 0 <= i < pairs.len() ==> pair_in_limits(#[trigger] pairs[i]),
    ensures
        forall|i: int|
            0 <= i < fold_pairs(pairs, k).profile.len() ==> {
                &&& 0 <= (#[trigger] fold_pairs(pairs, k).profile[i]).0
                    <= 100_000_000_000_000_000
                &&& -100_000_000 <= fold_pairs(pairs, k).profile[i].1 <= 100_000_000
            },
    decreases k,
{
    if k > 0 {
        lemma_profile_values(pairs, k - 1);
        lemma_fold_in_range(pairs, k - 1);
        let st = fold_pairs(pairs, k - 1);
        let st2 = fold_pairs(pairs, k);
        assert(st2 == step_pair(st, pairs[k - 1]));
        assert forall|i: int| 0 <= i < st2.profile.len() implies {
            &&& 0 <= (#[trigger] st2.profile[i]).0 <= 100_000_000_000_000_000
            &&& -100_000_000 <= st2.profile[i].1 <= 100_000_000
        } by {
            if i < st.profile.len() {
                assert(st2.profile[i] == st.profile[i]);
            } else {
                assert(st.cum_mm <= (k - 1) * (PAIR_DIST_MAX_MM as int));
                assert((k - 1) * (PAIR_DIST_MAX_MM as int) <= 10_000_000 * (
                PAIR_DIST_MAX_MM as int));
            }
        }
    }
}

/// The bounds every statistic of a successful analysis satisfies; they keep
/// the formatting arithmetic inside the machine's integer ranges.
pub open spec fn stats_wf(st: TrackStats) -> bool {
    &&& st.total_distance_mm <= 10_000_000_000_000_000
    &&& st.total_time_s <= 200_000_000_000_000_000
    &&& st.moving_time_s <= st.total_time_s
    &&& st.speed_max_d_m <= 10_000_001
    &&& st.speed_max_s <= 20_000_000_000
    &&& st.uphill_mm <= 2_000_000_000_000_000
    &&& st.downhill_mm <= 2_000_000_000_000_000
    &&& -100_000_000 <= st.elevation_min_mm <= 100_000_000
    &&& -100_000_000 <= st.elevation_max_mm <= 100_000_000
    &&& forall|i: int|
        0 <= i < st.profile@.len() ==> (#[trigger] st.profile@[i]).dist_mm
            <= 100_000_000_000_000_000 && -100_000_000 <= st.profile@[i].elev_mm <= 100_000_000
}

/// The aggregate ride statistics of one load.
pub struct TrackStats {
    /// Full-resolution geodesic length of every segment, summed.
    pub total_distance_mm: u64,
    pub total_time_s: u64,
    pub moving_time_s: u64,
    /// The fastest decimated pair, as rounded metres and elapsed seconds.
    pub speed_max_d_m: u64,
    pub speed_max_s: u64,
    pub uphill_mm: u64,
    pub downhill_mm: u64,
    pub elevation_min_mm: i64,
    pub elevation_max_mm: i64,
    pub profile: Vec<ElevPoint>,
    pub coords: Vec<Coord>,
}

/// What `analyze` promises of its result: each statistic equals the fold of
/// the decimated pairs of `tm`, the distance is the full-resolution sum, and
/// the coordinates are every raw point in order.
pub open spec fn stats_matches(st: TrackStats, tm: Seq<TrackM>) -> bool {
    let f = analyze_pairs(tm);
    &&& st.total_distance_mm == all_dist(tm)
    &&& st.total_time_s == f.total_time_s
    &&& st.moving_time_s == f.moving_time_s
    &&& st.speed_max_d_m == f.max_d_m
    &&& st.speed_max_s == f.max_s
    &&& st.uphill_mm == f.uphill_mm
    &&& st.downhill_mm == f.downhill_mm
    &&& st.elevation_min_mm == f.elevation_min_mm
    &&& st.elevation_max_mm == f.elevation_max_mm
    &&& profile_m(st.profile@) == f.profile
    &&& coords_m(st.coords@) == all_coords(tm)
}

#[derive(Debug)]
pub enum LoadError {
    /// The input exceeds the caps under which the analysis is known to stay
    /// inside the machine's integer ranges, or a segment's decimated
    /// distances do not match its points.
    LimitsExceeded,
}

/// Analyzes the ordered point sequences of `tracks`: full-resolution total
/// distance, down-sampled time, speed and climb statistics, the elevation
/// profile and the raw coordinate list.
pub fn analyze(tracks: &Vec<Track>) -> (r: Result<TrackStats, LoadError>)
    ensures
        r is Ok <==> tracks_within_limits(tracks_m(tracks@)),
        r is Ok ==> stats_matches(r->Ok_0, tracks_m(tracks@)),
        r is Ok ==> stats_wf(r->Ok_0),
{
    let ghost tm = tracks_m(tracks@);
    if !check_limits(tracks) {
        return Err(LoadError::LimitsExceeded);
    }
    let (pairs, coords, dist) = flatten(tracks);
    proof {
        lemma_all_pairs_limits(tm);
        lemma_all_n_points_nonneg(tm);
        assert(forall|i: int|
            0 <= i < pairs@.len() ==> #[trigger] pairs@[i].m() == pairs_m(pairs@)[i]);
    }
    let acc = fold_stats(&pairs);
    proof {
        let pm = pairs_m(pairs@);
        lemma_fold_in_range(pm, pm.len() as int);
        lemma_profile_values(pm, pm.len() as int);
        lemma_moving_le_total(pm, pm.len() as int);
        assert(forall|i: int|
            0 <= i < acc.profile@.len() ==> profile_m(acc.profile@)[i] == ((
            #[trigger] acc.profile@[i]).dist_mm as int, acc.profile@[i].elev_mm as int));
    }
    Ok(
        TrackStats {
            total_distance_mm: dist,
            total_time_s: acc.total_time_s,
            moving_time_s: acc.moving_time_s,
            speed_max_d_m: acc.max_d_m,
            speed_max_s: acc.max_s,
            uphill_mm: acc.uphill_mm,
            downhill_mm: acc.downhill_mm,
            elevation_min_mm: acc.elevation_min_mm,
            elevation_max_mm: acc.elevation_max_mm,
            profile: acc.profile,
            coords,
        },
    )
}

/// Every elevation-profile sample of an analysis lies between its reported
/// elevation minimum and maximum.
pub proof fn lemma_stats_profile_within_extremes(st: TrackStats, tm: Seq<TrackM>)
    requires
        stats_matches(st, tm),
    ensures
        forall|i: int|
            0 <= i < st.profile@.len() ==> st.elevation_min_mm <= (
            #[trigger] st.profile@[i]).elev_mm <= st.elevation_max_mm,
{
    let pairs = all_pairs(tm);
    lemma_profile_bounded(pairs, pairs.len() as int);
    assert(forall|i: int|
        0 <= i < st.profile@.len() ==> profile_m(st.profile@)[i] == ((
        #[trigger] st.profile@[i]).dist_mm as int, st.profile@[i].elev_mm as int));
}

/// The moving time of an analysis never exceeds its total time.
pub proof fn lemma_stats_moving_within_total(st: TrackStats, tm: Seq<TrackM>)
    requires
        stats_matches(st, tm),
    ensures
        st.moving_time_s <= st.total_time_s,
{
    let pairs = all_pairs(tm);
    lemma_moving_le_total(pairs, pairs.len() as int);
}

/// The index pairs of consecutive decimated points of a segment of `n`
/// points: every tenth point paired with the next kept one.
#[verifier::loop_isolation(false)]
pub fn decimated_pair_indices(n: usize) -> (r: Vec<(usize, usize)>)
    ensures
        r@.len() == n_pairs(n as int),
        forall|k: int|
            0 <= k < r@.len() ==> (#[trigger] r@[k]).0 == 10 * k && r@[k].1 == 10 * k + 10
                && r@[k].1 < n,
{
    let np: usize = if n == 0 {
        0
    } else {
        (n - 1) / 10
    };
    let mut out: Vec<(usize, usize)> = Vec::new();
    let mut k: usize = 0;
    while k < np
        invariant
            0 <= k <= np,
            np == n_pairs(n as int),
            out@.len() == k,
            forall|c: int|
                0 <= c < k ==> (#[trigger] out@[c]).0 == 10 * c && out@[c].1 == 10 * c + 10
                    && out@[c].1 < n,
        decreases np - k,
    {
        assert(10 * (k as int + 1) <= n - 1) by (nonlinear_arith)
            requires
                k as int + 1 <= (n as int - 1) / 10,
                n >= 1,
        ;
        out.push((10 * k, 10 * k + 10));
        k = k + 1;
    }
    out
}

} // verus!

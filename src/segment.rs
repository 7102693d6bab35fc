//! Scene segmentation: scene-change timestamps read from the detector's
//! diagnostic stream are merged into boundaries, and boundaries into scenes.
use vstd::prelude::*;
use crate::text::{find, first_occurrence, parse_thousandths, thousandths_at};

verus! {

/// A contiguous time range of the input, in milliseconds.
#[derive(Clone, Copy, Debug, PartialEq, Eq)]
pub struct Scene {
    pub index: usize,
    pub start_ms: u64,
    pub end_ms: u64,
}

/// Bytes of `pts_time:`.
pub open spec fn pts_marker() -> Seq<u8> {
    seq![112u8, 116, 115, 95, 116, 105, 109, 101, 58]
}

/// Bytes of `out#0`, which the detector prints once the scan is over.
pub open spec fn end_marker() -> Seq<u8> {
    seq![111u8, 117, 116, 35, 48]
}

/// The timestamp after the first `pts_time:` in a chunk of detector output.
pub open spec fn scene_time_in(s: Seq<u8>) -> Option<int> {
    match first_occurrence(s, pts_marker()) {
        Some(i) => thousandths_at(s, i + pts_marker().len()),
        None => None,
    }
}

/// A detection at `t` is kept after boundary `last` when it is at least
/// `min_gap` later and lies inside the file.
pub open spec fn keeps(last: u64, t: u64, min_gap: u64, duration: u64) -> bool {
    t >= last + min_gap && t < duration
}

/// Boundaries kept from the detections, starting with `0`.
pub open spec fn merged(detected: Seq<u64>, min_gap: u64, duration: u64) -> Seq<u64>
    decreases detected.len(),
{
    if detected.len() == 0 {
        seq![0u64]
    } else {
        let m = merged(detected.drop_last(), min_gap, duration);
        if keeps(m.last(), detected.last(), min_gap, duration) {
            m.push(detected.last())
        } else {
            m
        }
    }
}

/// The final boundary list: the kept detections, then the total duration.
pub open spec fn boundaries_of(detected: Seq<u64>, min_gap: u64, duration: u64) -> Seq<u64> {
    merged(detected, min_gap, duration).push(duration)
}

/// The scenes between consecutive boundaries.
pub open spec fn scenes_of(b: Seq<u64>) -> Seq<Scene> {
    Seq::new(
        if b.len() >= 1 {
            (b.len() - 1) as nat
        } else {
            0
        },
        |i: int| Scene { index: i as usize, start_ms: b[i], end_ms: b[i + 1] },
    )
}

fn pts_marker_bytes() -> (r: Vec<u8>)
    ensures
        r@ == pts_marker(),
{
    let r = vec![112u8, 116, 115, 95, 116, 105, 109, 101, 58];
    assert(r@ =~= pts_marker());
    r
}

/// The scene-change timestamp in a chunk of detector output, in milliseconds:
/// the number after the first `pts_time:`.
pub fn parse_scene_time(chunk: &[u8]) -> (r: Option<u64>)
    ensures
        r matches Some(v) ==> scene_time_in(chunk@) == Some(v as int),
        r is None ==> scene_time_in(chunk@) is None,
{
    let marker = pts_marker_bytes();
    match find(chunk, marker.as_slice()) {
        Some(i) => parse_thousandths(chunk, i + marker.len()),
        None => None,
    }
}

/// Whether a chunk of detector output marks the end of the scan.
pub fn scan_finished(chunk: &[u8]) -> (r: bool)
    ensures
        r == first_occurrence(chunk@, end_marker()) is Some,
{
    let marker = vec![111u8, 117, 116, 35, 48];
    assert(marker@ =~= end_marker());
    find(chunk, marker.as_slice()).is_some()
}

/// Boundaries collected while the detector runs.
pub struct BoundaryMerger {
    min_gap: u64,
    duration: u64,
    points: Vec<u64>,
    detected: Ghost<Seq<u64>>,
}

impl BoundaryMerger {
    pub closed spec fn min_gap(&self) -> u64 {
        self.min_gap
    }

    pub closed spec fn duration(&self) -> u64 {
        self.duration
    }

    /// Every detection offered so far.
    pub closed spec fn detected(&self) -> Seq<u64> {
        self.detected@
    }

    pub closed spec fn wf(&self) -> bool {
        self.points@ == merged(self.detected@, self.min_gap, self.duration)
    }

    /// Starts with the single boundary `0`; `min_gap` and `duration` are in milliseconds.
    pub fn new(min_gap: u64, duration: u64) -> (m: BoundaryMerger)
        ensures
            m.wf(),
            m.min_gap() == min_gap,
            m.duration() == duration,
            m.detected() == Seq::<u64>::empty(),
    {
        let points = vec![0u64];
        assert(points@ =~= seq![0u64]);
        BoundaryMerger { min_gap, duration, points, detected: Ghost(Seq::empty()) }
    }

    /// Offers a detected scene change at `t` milliseconds; it is kept when it
    /// lies at least `min_gap` after the last kept boundary and inside the file.
    pub fn offer(&mut self, t: u64) -> (kept: bool)
        requires
            old(self).wf(),
        ensures
            final(self).wf(),
            final(self).min_gap() == old(self).min_gap(),
            final(self).duration() == old(self).duration(),
            final(self).detected() == old(self).detected().push(t),
            kept == keeps(
                merged(old(self).detected(), old(self).min_gap(), old(self).duration()).last(),
                t,
                old(self).min_gap(),
                old(self).duration(),
            ),
    {
        proof {
            lemma_merged_nonempty(self.detected@, self.min_gap, self.duration);
        }
        let last = self.points[self.points.len() - 1];
        let ghost before = self.detected@;
        self.detected = Ghost(before.push(t));
        assert(self.detected@.drop_last() =~= before);
        let kept = t >= last && t - last >= self.min_gap && t < self.duration;
        if kept {
            self.points.push(t);
        }
        kept
    }

    /// The final boundary list: the kept detections followed by the duration.
    pub fn finish(self) -> (b: Vec<u64>)
        requires
            self.wf(),
        ensures
            b@ == boundaries_of(self.detected(), self.min_gap(), self.duration()),
    {
        let mut points = self.points;
        points.push(self.duration);
        points
    }
}

proof fn lemma_merged_nonempty(d: Seq<u64>, min_gap: u64, duration: u64)
    ensures
        merged(d, min_gap, duration).len() >= 1,
        merged(d, min_gap, duration)[0] == 0,
    decreases d.len(),
{
    if d.len() > 0 {
        lemma_merged_nonempty(d.drop_last(), min_gap, duration);
    }
}

/// Merges a whole list of detections into boundaries.
pub fn merge_boundaries(detected: &Vec<u64>, min_gap: u64, duration: u64) -> (b: Vec<u64>)
    ensures
        b@ == boundaries_of(detected@, min_gap, duration),
{
    let mut m = BoundaryMerger::new(min_gap, duration);
    let mut i: usize = 0;
    while i < detected.len()
        invariant
            i <= detected@.len(),
            m.wf(),
            m.min_gap() == min_gap,
            m.duration() == duration,
            m.detected() == detected@.subrange(0, i as int),
        decreases detected@.len() - i,
    {
        m.offer(detected[i]);
        assert(detected@.subrange(0, i as int).push(detected@[i as int]) =~= detected@.subrange(
            0,
            i + 1,
        ));
        i = i + 1;
    }
    assert(detected@.subrange(0, i as int) =~= detected@);
    m.finish()
}

/// The scenes between consecutive boundaries, numbered from zero.
pub fn scenes_from_boundaries(b: &Vec<u64>) -> (r: Vec<Scene>)
    ensures
        r@ == scenes_of(b@),
        forall|k: int| 0 <= k < r@.len() ==> (#[trigger] r@[k]).index == k,
{
    let mut r: Vec<Scene> = Vec::new();
    if b.len() < 2 {
        assert(r@ =~= scenes_of(b@));
        return r;
    }
    let mut i: usize = 0;
    while i < b.len() - 1
        invariant
            b@.len() >= 2,
            i + 1 <= b@.len(),
            r@.len() == i,
            forall|k: int|
                0 <= k < i ==> r@[k] == (Scene { index: k as usize, start_ms: b@[k], end_ms: b@[k + 1] }),
        decreases b@.len() - i,
    {
        r.push(Scene { index: i, start_ms: b[i], end_ms: b[i + 1] });
        i = i + 1;
    }
    assert(r@ =~= scenes_of(b@));
    r
}

/// What the merge keeps: starts at zero, gaps of at least `min_gap`, and every
/// kept boundary but the first lies strictly inside the file.
proof fn lemma_merged_shape(d: Seq<u64>, min_gap: u64, duration: u64)
    ensures
        ({
            let m = merged(d, min_gap, duration);
            &&& m.len() >= 1
            &&& m[0] == 0
            &&& forall|i: int| 0 <= i < m.len() - 1 ==> m[i] + min_gap <= #[trigger] m[i + 1]
            &&& forall|i: int| 1 <= i < m.len() ==> #[trigger] m[i] < duration
        }),
    decreases d.len(),
{
    if d.len() > 0 {
        lemma_merged_shape(d.drop_last(), min_gap, duration);
    }
}

/// Consecutive boundaries are never closer than the minimum scene length,
/// except the closing boundary at the total duration; when the minimum and
/// the duration are positive, boundaries strictly increase.
pub proof fn lemma_merge_keeps_min_gap(detected: Seq<u64>, min_gap: u64, duration: u64)
    ensures
        ({
            let b = boundaries_of(detected, min_gap, duration);
            &&& forall|i: int| 0 <= i < b.len() - 2 ==> b[i] + min_gap <= #[trigger] b[i + 1]
            &&& (min_gap > 0 && duration > 0) ==> forall|i: int|
                0 <= i < b.len() - 1 ==> b[i] < #[trigger] b[i + 1]
        }),
{
    lemma_merged_shape(detected, min_gap, duration);
    let m = merged(detected, min_gap, duration);
    let b = boundaries_of(detected, min_gap, duration);
    assert forall|i: int| 0 <= i < b.len() - 2 implies b[i] + min_gap <= #[trigger] b[i + 1] by {
        assert(b[i] == m[i] && b[i + 1] == m[i + 1]);
    }
    if min_gap > 0 && duration > 0 {
        assert forall|i: int| 0 <= i < b.len() - 1 implies b[i] < #[trigger] b[i + 1] by {
            if i < b.len() - 2 {
                assert(b[i] == m[i] && b[i + 1] == m[i + 1]);
            } else {
                assert(b[i] == m[m.len() - 1]);
            }
        }
    }
}

/// Scenes built from detected boundaries cover the file without gaps or
/// overlaps: the first starts at zero, each ends where the next starts, and
/// the last ends at the duration; with a positive minimum length and
/// duration, every scene ends after it starts.
pub proof fn lemma_scenes_cover(detected: Seq<u64>, min_gap: u64, duration: u64)
    ensures
        ({
            let sc = scenes_of(boundaries_of(detected, min_gap, duration));
            &&& sc.len() >= 1
            &&& sc[0].start_ms == 0
            &&& sc[sc.len() - 1].end_ms == duration
            &&& forall|i: int| 0 <= i < sc.len() - 1 ==> (#[trigger] sc[i]).end_ms == sc[i + 1].start_ms
            &&& (min_gap > 0 && duration > 0) ==> forall|i: int|
                0 <= i < sc.len() ==> (#[trigger] sc[i]).start_ms < sc[i].end_ms
        }),
{
    lemma_merged_shape(detected, min_gap, duration);
    lemma_merge_keeps_min_gap(detected, min_gap, duration);
    let b = boundaries_of(detected, min_gap, duration);
    let sc = scenes_of(b);
    assert(sc[0].start_ms == b[0]);
    assert(sc[sc.len() - 1].end_ms == b[b.len() - 1]);
}

} // verus!

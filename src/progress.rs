//! Progress aggregation: the scene-to-frame mapping, the resume position of
//! the frame counter, the running size estimate, and the last-value-wins
//! snapshot read by the terminal and web front ends.
use vstd::prelude::*;
use crate::checkpoint::LedgerEntry;
use crate::paths::{file_name, file_name_of, split_file_name, split_name};
use crate::segment::Scene;

verus! {

/// A frame rate as the rational `num / den` frames per second.
#[derive(Clone, Copy, Debug, PartialEq, Eq)]
pub struct FrameRate {
    pub num: u32,
    pub den: u32,
}

/// Frames elapsed after `ms` milliseconds (saturating at `u64::MAX`).
pub open spec fn frame_at(ms: int, rate: FrameRate) -> int {
    let f = (ms * rate.num) / (1000 * rate.den);
    if f > u64::MAX {
        u64::MAX as int
    } else {
        f
    }
}

/// Frames a scene spans.
pub open spec fn frames_in(s: Scene, rate: FrameRate) -> int {
    let a = frame_at(s.start_ms as int, rate);
    let b = frame_at(s.end_ms as int, rate);
    if b >= a {
        b - a
    } else {
        0
    }
}

/// Where a scene lies on the file-wide frame counter.
#[derive(Clone, Copy, Debug, PartialEq, Eq)]
pub struct SceneFrames {
    pub index: usize,
    pub start_frame: u64,
    pub end_frame: u64,
    /// Frames of this scene.
    pub frames: u64,
}

pub open spec fn scene_frames_of(s: Scene, rate: FrameRate) -> SceneFrames {
    SceneFrames {
        index: s.index,
        start_frame: frame_at(s.start_ms as int, rate) as u64,
        end_frame: frame_at(s.end_ms as int, rate) as u64,
        frames: frames_in(s, rate) as u64,
    }
}

/// Total frames of a list of scenes.
pub open spec fn total_frames(scenes: Seq<Scene>, rate: FrameRate) -> int
    decreases scenes.len(),
{
    if scenes.len() == 0 {
        0
    } else {
        total_frames(scenes.drop_last(), rate) + frames_in(scenes.last(), rate)
    }
}

pub fn frame_at_ms(ms: u64, rate: FrameRate) -> (r: u64)
    requires
        rate.den > 0,
    ensures
        r as int == frame_at(ms as int, rate),
{
    let a: u128 = ms as u128;
    let b: u128 = rate.num as u128;
    assert(a * b <= u64::MAX * u32::MAX) by (nonlinear_arith)
        requires
            a <= u64::MAX,
            b <= u32::MAX,
    ;
    let num: u128 = a * b;
    let den: u128 = 1000 * rate.den as u128;
    let f = num / den;
    if f > u64::MAX as u128 {
        u64::MAX
    } else {
        f as u64
    }
}

/// The frame position of one scene.
pub fn scene_frames(s: &Scene, rate: FrameRate) -> (r: SceneFrames)
    requires
        rate.den > 0,
    ensures
        r == scene_frames_of(*s, rate),
{
    let a = frame_at_ms(s.start_ms, rate);
    let b = frame_at_ms(s.end_ms, rate);
    SceneFrames {
        index: s.index,
        start_frame: a,
        end_frame: b,
        frames: if b >= a {
            b - a
        } else {
            0
        },
    }
}

/// The frame mapping of every scene, in the order given.
pub fn frame_map(scenes: &Vec<Scene>, rate: FrameRate) -> (r: Vec<SceneFrames>)
    requires
        rate.den > 0,
    ensures
        r@.len() == scenes@.len(),
        forall|i: int| 0 <= i < r@.len() ==> #[trigger] r@[i] == scene_frames_of(scenes@[i], rate),
{
    let mut r: Vec<SceneFrames> = Vec::new();
    let mut i: usize = 0;
    while i < scenes.len()
        invariant
            rate.den > 0,
            i <= scenes@.len(),
            r@.len() == i,
            forall|k: int| 0 <= k < i ==> #[trigger] r@[k] == scene_frames_of(scenes@[k], rate),
        decreases scenes@.len() - i,
    {
        r.push(scene_frames(&scenes[i], rate));
        i = i + 1;
    }
    r
}

/// Where the frame counter resumes: the file's frames less those of the
/// scenes still to run (zero when they exceed the file's count).
pub fn resume_position(file_frames: u64, pending: &Vec<Scene>, rate: FrameRate) -> (r: u64)
    requires
        rate.den > 0,
    ensures
        r as int == (if total_frames(pending@, rate) >= file_frames {
            0
        } else {
            file_frames - total_frames(pending@, rate)
        }),
{
    let mut left: u64 = file_frames;
    let mut i: usize = 0;
    while i < pending.len()
        invariant
            rate.den > 0,
            i <= pending@.len(),
            left as int == (if total_frames(pending@.subrange(0, i as int), rate) >= file_frames {
                0
            } else {
                file_frames - total_frames(pending@.subrange(0, i as int), rate)
            }),
        decreases pending@.len() - i,
    {
        assert(pending@.subrange(0, i + 1).drop_last() =~= pending@.subrange(0, i as int));
        let f = scene_frames(&pending[i], rate).frames;
        left = if f >= left {
            0
        } else {
            left - f
        };
        i = i + 1;
    }
    assert(pending@.subrange(0, i as int) =~= pending@);
    left
}

/// Sum of original sizes in a ledger.
pub open spec fn original_total(l: Seq<LedgerEntry>) -> nat
    decreases l.len(),
{
    if l.len() == 0 {
        0
    } else {
        original_total(l.drop_last()) + l.last().original_kb as nat
    }
}

/// Sum of encoded sizes in a ledger.
pub open spec fn encoded_total(l: Seq<LedgerEntry>) -> nat
    decreases l.len(),
{
    if l.len() == 0 {
        0
    } else {
        encoded_total(l.drop_last()) + l.last().encoded_kb as nat
    }
}

/// The running size estimate.
#[derive(Clone, Copy, Debug, PartialEq, Eq)]
pub struct SizeEstimate {
    /// Expected size of the final file, in kilobytes.
    pub output_kb: u64,
    /// Encoded size per original size so far, in hundredths of a percent
    /// (the reduction is `10000 - ratio_bp`).
    pub ratio_bp: u64,
}

/// The estimate from the side container's size `side`, the input's size
/// `file` and the ledger totals: completed scenes shrink as measured, and the
/// untranscoded remainder is expected to shrink in the same proportion.
pub open spec fn estimate_of(side: int, file: int, orig: int, enc: int) -> Option<SizeEstimate> {
    let o = side + orig;
    let e = side + enc;
    let rest = if file >= side {
        file - side
    } else {
        0
    };
    let out = side + rest * e / o;
    let ratio = e * 10000 / o;
    if o == 0 || o > u64::MAX || e > u64::MAX || out > u64::MAX || ratio > u64::MAX {
        None
    } else {
        Some(SizeEstimate { output_kb: out as u64, ratio_bp: ratio as u64 })
    }
}

proof fn lemma_totals_grow(l: Seq<LedgerEntry>, i: int)
    requires
        0 <= i <= l.len(),
    ensures
        original_total(l.subrange(0, i)) <= original_total(l),
        encoded_total(l.subrange(0, i)) <= encoded_total(l),
    decreases l.len() - i,
{
    if i < l.len() {
        lemma_totals_grow(l, i + 1);
        assert(l.subrange(0, i + 1).drop_last() =~= l.subrange(0, i));
    } else {
        assert(l.subrange(0, i) =~= l);
    }
}

/// The size estimate after the scenes in `ledger`, or `None` when nothing is
/// known yet (no sizes at all) or a figure exceeds `u64::MAX`.
pub fn estimate_size(side_kb: u64, file_kb: u64, ledger: &Vec<LedgerEntry>) -> (r: Option<SizeEstimate>)
    ensures
        r == estimate_of(
            side_kb as int,
            file_kb as int,
            original_total(ledger@) as int,
            encoded_total(ledger@) as int,
        ),
{
    let mut orig: u64 = 0;
    let mut enc: u64 = 0;
    let mut i: usize = 0;
    while i < ledger.len()
        invariant
            i <= ledger@.len(),
            orig == original_total(ledger@.subrange(0, i as int)),
            enc == encoded_total(ledger@.subrange(0, i as int)),
            side_kb + orig <= u64::MAX,
            side_kb + enc <= u64::MAX,
        decreases ledger@.len() - i,
    {
        assert(ledger@.subrange(0, i + 1).drop_last() =~= ledger@.subrange(0, i as int));
        let x = ledger[i];
        if x.original_kb > u64::MAX - side_kb - orig || x.encoded_kb > u64::MAX - side_kb - enc {
            proof {
                lemma_totals_grow(ledger@, i + 1);
            }
            return None;
        }
        orig = orig + x.original_kb;
        enc = enc + x.encoded_kb;
        i = i + 1;
    }
    assert(ledger@.subrange(0, i as int) =~= ledger@);
    let o: u128 = side_kb as u128 + orig as u128;
    let e: u128 = side_kb as u128 + enc as u128;
    if o == 0 {
        return None;
    }
    let rest: u128 = if file_kb >= side_kb {
        (file_kb - side_kb) as u128
    } else {
        0
    };
    assert(rest * e <= u64::MAX * u64::MAX) by (nonlinear_arith)
        requires
            rest <= u64::MAX,
            e <= u64::MAX,
    ;
    assert(e * 10000 <= u64::MAX * 10000) by (nonlinear_arith)
        requires
            e <= u64::MAX,
    ;
    let out: u128 = side_kb as u128 + rest * e / o;
    let ratio: u128 = e * 10000 / o;
    if out > u64::MAX as u128 || ratio > u64::MAX as u128 {
        return None;
    }
    Some(SizeEstimate { output_kb: out as u64, ratio_bp: ratio as u64 })
}

/// The latest known state of a run; every field holds the last value written.
#[derive(Clone, Debug)]
pub struct ProgressSnapshot {
    pub task_id: Vec<u8>,
    pub file_name: Vec<u8>,
    pub fps: u64,
    pub frame: u64,
    pub frames: u64,
    pub expected_kb: u64,
    pub ratio_bp: u64,
    pub current_file: u64,
    pub total_files: u64,
    pub scenes_done: u64,
    pub scenes_total: u64,
}

/// What a progress reader is given.
#[derive(Clone, Debug)]
pub struct ProgressReport {
    pub id: Vec<u8>,
    pub fps: u64,
    pub frame: u64,
    pub frames: u64,
    /// `frame / frames` in hundredths of a percent.
    pub percentage_bp: u64,
    pub expected_kb: u64,
    pub current_file_count: u64,
    pub total_files: u64,
    pub current_file_name: Vec<u8>,
}

/// `Unknown`
pub open spec fn unknown_name() -> Seq<u8> {
    seq![85u8, 110, 107, 110, 111, 119, 110]
}

pub open spec fn percentage_of(frame: int, frames: int) -> int {
    if frames == 0 {
        0
    } else if frame * 10000 / frames > u64::MAX {
        u64::MAX as int
    } else {
        frame * 10000 / frames
    }
}

/// A run's shared progress: nothing until a file begins, then the snapshot.
pub struct ProgressAggregator {
    pub latest: Option<ProgressSnapshot>,
}

impl ProgressAggregator {
    pub fn new() -> (r: ProgressAggregator)
        ensures
            r.latest is None,
    {
        ProgressAggregator { latest: None }
    }

    /// Starts reporting on a file: counters restart from zero.
    pub fn begin_file(
        &mut self,
        task_id: Vec<u8>,
        file_name: Vec<u8>,
        current_file: u64,
        total_files: u64,
        frames: u64,
        scenes_total: u64,
    )
        ensures
            final(self).latest == Some(
                ProgressSnapshot {
                    task_id,
                    file_name,
                    fps: 0,
                    frame: 0,
                    frames,
                    expected_kb: 0,
                    ratio_bp: 0,
                    current_file,
                    total_files,
                    scenes_done: 0,
                    scenes_total,
                },
            ),
    {
        self.latest = Some(
            ProgressSnapshot {
                task_id,
                file_name,
                fps: 0,
                frame: 0,
                frames,
                expected_kb: 0,
                ratio_bp: 0,
                current_file,
                total_files,
                scenes_done: 0,
                scenes_total,
            },
        );
    }

    /// Records the encoder's latest frame position and speed.
    pub fn set_position(&mut self, frame: u64, fps: u64)
        ensures
            match (old(self).latest, final(self).latest) {
                (Some(a), Some(b)) => b == (ProgressSnapshot { frame, fps, ..a }),
                (None, None) => true,
                _ => false,
            },
    {
        if let Some(s) = &mut self.latest {
            s.frame = frame;
            s.fps = fps;
        }
    }

    /// Adds frame ticks from a worker (saturating at `u64::MAX`).
    pub fn add_frames(&mut self, n: u64)
        ensures
            match (old(self).latest, final(self).latest) {
                (Some(a), Some(b)) => b == (ProgressSnapshot {
                    frame: if a.frame + n > u64::MAX {
                        u64::MAX
                    } else {
                        (a.frame + n) as u64
                    },
                    ..a
                }),
                (None, None) => true,
                _ => false,
            },
    {
        if let Some(s) = &mut self.latest {
            s.frame = if s.frame > u64::MAX - n {
                u64::MAX
            } else {
                s.frame + n
            };
        }
    }

    /// Records the latest size estimate.
    pub fn set_estimate(&mut self, e: SizeEstimate)
        ensures
            match (old(self).latest, final(self).latest) {
                (Some(a), Some(b)) => b == (ProgressSnapshot {
                    expected_kb: e.output_kb,
                    ratio_bp: e.ratio_bp,
                    ..a
                }),
                (None, None) => true,
                _ => false,
            },
    {
        if let Some(s) = &mut self.latest {
            s.expected_kb = e.output_kb;
            s.ratio_bp = e.ratio_bp;
        }
    }

    /// Sets how many scenes of the file are complete.
    pub fn set_scenes_done(&mut self, done: u64)
        ensures
            match (old(self).latest, final(self).latest) {
                (Some(a), Some(b)) => b == (ProgressSnapshot { scenes_done: done, ..a }),
                (None, None) => true,
                _ => false,
            },
    {
        if let Some(s) = &mut self.latest {
            s.scenes_done = done;
        }
    }

    /// The report for readers. Before any file began every figure is zero and
    /// the file is `Unknown`; afterwards the file is named by its stem. `id`,
    /// when given, replaces the stored task id.
    pub fn report(&self, id: Option<Vec<u8>>) -> (r: ProgressReport)
        ensures
            match self.latest {
                None => r.id@.len() == 0 && r.fps == 0 && r.frame == 0 && r.frames == 0
                    && r.percentage_bp == 0 && r.expected_kb == 0 && r.current_file_count == 0
                    && r.total_files == 0 && r.current_file_name@ == unknown_name(),
                Some(s) => {
                    &&& r.id@ == (match id {
                        Some(i) => i@,
                        None => s.task_id@,
                    })
                    &&& r.fps == s.fps
                    &&& r.frame == s.frame
                    &&& r.frames == s.frames
                    &&& r.percentage_bp == percentage_of(s.frame as int, s.frames as int)
                    &&& r.expected_kb == s.expected_kb
                    &&& r.current_file_count == s.current_file
                    &&& r.total_files == s.total_files
                    &&& r.current_file_name@ == split_name(file_name_of(s.file_name@)).0
                },
            },
    {
        match &self.latest {
            None => {
                let name = vec![85u8, 110, 107, 110, 111, 119, 110];
                assert(name@ =~= unknown_name());
                ProgressReport {
                    id: Vec::new(),
                    fps: 0,
                    frame: 0,
                    frames: 0,
                    percentage_bp: 0,
                    expected_kb: 0,
                    current_file_count: 0,
                    total_files: 0,
                    current_file_name: name,
                }
            },
            Some(s) => {
                let pct: u64 = if s.frames == 0 {
                    0
                } else {
                    let a: u128 = s.frame as u128 * 10000;
                    let q: u128 = a / s.frames as u128;
                    if q > u64::MAX as u128 {
                        u64::MAX
                    } else {
                        q as u64
                    }
                };
                let rid = match id {
                    Some(i) => i,
                    None => s.task_id.clone(),
                };
                ProgressReport {
                    id: rid,
                    fps: s.fps,
                    frame: s.frame,
                    frames: s.frames,
                    percentage_bp: pct,
                    expected_kb: s.expected_kb,
                    current_file_count: s.current_file,
                    total_files: s.total_files,
                    current_file_name: split_file_name(file_name(s.file_name.as_slice()).as_slice()).0,
                }
            },
        }
    }
}

/// Progress of a directory scan.
#[derive(Clone, Copy, Debug, PartialEq, Eq)]
pub struct ScanProgress {
    pub count: u64,
    pub total: u64,
}

/// The scan report: zeros until a scan has started.
pub fn scan_report(latest: Option<ScanProgress>) -> (r: ScanProgress)
    ensures
        r == (match latest {
            Some(p) => p,
            None => ScanProgress { count: 0, total: 0 },
        }),
{
    match latest {
        Some(p) => p,
        None => ScanProgress { count: 0, total: 0 },
    }
}

/// Projection of a whole-file encode from its progress so far.
#[derive(Clone, Copy, Debug, PartialEq, Eq)]
pub struct Projection {
    /// Expected output size, in kilobytes.
    pub output_kb: u64,
    /// Expected output size per input size, in hundredths of a percent.
    pub percent_bp: u64,
}

pub open spec fn projection_of(size_kb: int, frame: int, frames: int, input_kb: int) -> Option<Projection> {
    let out = size_kb * frames / frame;
    let pct = out * 10000 / input_kb;
    if frame == 0 || input_kb == 0 || out > u64::MAX || pct > u64::MAX {
        None
    } else {
        Some(Projection { output_kb: out as u64, percent_bp: pct as u64 })
    }
}

/// Projects the output size from `size_kb` written after `frame` of `frames`
/// frames, for an input of `input_kb`.
pub fn project_output(size_kb: u64, frame: u64, frames: u64, input_kb: u64) -> (r: Option<Projection>)
    ensures
        r == projection_of(size_kb as int, frame as int, frames as int, input_kb as int),
{
    if frame == 0 || input_kb == 0 {
        return None;
    }
    let a: u128 = size_kb as u128;
    let b: u128 = frames as u128;
    assert(a * b <= u64::MAX * u64::MAX) by (nonlinear_arith)
        requires
            a <= u64::MAX,
            b <= u64::MAX,
    ;
    let out: u128 = a * b / frame as u128;
    if out > u64::MAX as u128 {
        return None;
    }
    let pct: u128 = out * 10000 / input_kb as u128;
    if pct > u64::MAX as u128 {
        return None;
    }
    Some(Projection { output_kb: out as u64, percent_bp: pct as u64 })
}

} // verus!

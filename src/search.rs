//! Per-scene quality search: find a CRF whose measured VMAF lies within
//! tolerance of a target, with a fixed budget of probes.
//!
//! The search is a state machine: the caller asks for the next CRF to try,
//! encodes and measures the scene at that CRF, and records the score.
use vstd::prelude::*;

verus! {

/// Accepted distance between target and measured score (0.5 VMAF).
pub const TOLERANCE: u64 = 500;

/// Number of trial encodes a search may make.
pub const MAX_PROBES: usize = 3;

/// First CRF tried (23.0).
pub const START_CRF: i64 = 23000;

/// Initial lower end of the bisection range (10.0).
pub const START_MIN_CRF: i64 = 10000;

/// Initial upper end of the bisection range (45.0).
pub const START_MAX_CRF: i64 = 45000;

/// One trial encode: the CRF used and the score measured for it.
#[derive(Clone, Copy, Debug, PartialEq, Eq)]
pub struct Probe {
    pub crf: i64,
    pub vmaf: u64,
}

/// Why a search produced no usable CRF.
#[derive(Clone, Copy, Debug, PartialEq, Eq)]
pub enum SearchError {
    /// No probe beat the initial placeholder: no measurement succeeded.
    NoUsableMeasurement,
}

/// Abstract state of a search.
pub ghost struct SearchModel {
    pub target: int,
    pub crf: int,
    pub min_crf: int,
    pub max_crf: int,
    /// Closest `(crf, vmaf)` seen so far; `(START_CRF, 0)` before any better probe.
    pub best: (int, int),
    /// Every probe made, in order.
    pub probes: Seq<(int, int)>,
    pub accepted: bool,
}

pub open spec fn distance(target: int, vmaf: int) -> int {
    if target >= vmaf {
        target - vmaf
    } else {
        vmaf - target
    }
}

/// The fixed CRF step for an error band; zero where bisection applies.
pub open spec fn step_for(e: int) -> int {
    if 2000 < e <= 3000 {
        3000
    } else if 1000 < e <= 2000 {
        2000
    } else if 800 < e <= 1000 {
        1000
    } else if 500 < e <= 800 {
        500
    } else {
        0
    }
}

/// Half of a difference, rounded toward zero.
pub open spec fn half(d: int) -> int {
    if d >= 0 {
        d / 2
    } else {
        -((-d) / 2)
    }
}

pub open spec fn start_model(target: int) -> SearchModel {
    SearchModel {
        target,
        crf: START_CRF as int,
        min_crf: START_MIN_CRF as int,
        max_crf: START_MAX_CRF as int,
        best: (START_CRF as int, 0),
        probes: Seq::empty(),
        accepted: false,
    }
}

/// The search stops once a probe is accepted, the budget is spent, or the
/// bisection range is empty.
pub open spec fn is_done(m: SearchModel) -> bool {
    m.accepted || m.probes.len() >= MAX_PROBES || m.min_crf > m.max_crf
}

/// A measured score (a failed measurement scores zero) becomes the best when
/// no measurement has succeeded before, or when it is strictly closer to
/// the target than the best so far.
///
/// The starting best `(START_CRF, 0)` is a placeholder meaning "nothing
/// measured yet", not a measurement: the first successful score always
/// replaces it, even one at least twice the target, so that a search whose
/// measurements succeeded never reports failure.
pub open spec fn replaces_best(target: int, best_vmaf: int, vmaf: int) -> bool {
    vmaf != 0 && (best_vmaf == 0 || distance(target, vmaf) < distance(target, best_vmaf))
}

/// The state after measuring `vmaf` at the current CRF. Outside the fixed
/// step bands the probed CRF becomes a bound of the range (the lower bound
/// when the score is above the target, the upper bound when below) and the
/// next CRF is the midpoint of the new range.
pub open spec fn advance(m: SearchModel, vmaf: int) -> SearchModel {
    let e = distance(m.target, vmaf);
    let probes = m.probes.push((m.crf, vmaf));
    if e <= TOLERANCE {
        let best = if vmaf != 0 {
            (m.crf, vmaf)
        } else {
            m.best
        };
        SearchModel { best, probes, accepted: true, ..m }
    } else {
        let best = if replaces_best(m.target, m.best.1, vmaf) {
            (m.crf, vmaf)
        } else {
            m.best
        };
        let step = step_for(e);
        if step > 0 {
            let crf = if vmaf > m.target {
                m.crf + step
            } else {
                m.crf - step
            };
            SearchModel { crf, best, probes, ..m }
        } else if vmaf > m.target {
            let min_crf = m.crf;
            SearchModel { crf: min_crf + half(m.max_crf - min_crf), min_crf, best, probes, ..m }
        } else {
            let max_crf = m.crf;
            SearchModel {
                crf: m.min_crf + half(max_crf - m.min_crf),
                max_crf,
                best,
                probes,
                ..m
            }
        }
    }
}

/// The result a finished (or abandoned) search reports.
pub open spec fn outcome_of(m: SearchModel) -> Result<(int, int), SearchError> {
    if m.best.1 != 0 {
        Ok(m.best)
    } else {
        Err(SearchError::NoUsableMeasurement)
    }
}

/// Runs the search against a measurement function, making at most `fuel` probes.
pub open spec fn run(m: SearchModel, measure: spec_fn(int) -> int, fuel: nat) -> SearchModel
    decreases fuel,
{
    if fuel == 0 || is_done(m) {
        m
    } else {
        run(advance(m, measure(m.crf)), measure, (fuel - 1) as nat)
    }
}

/// What holds of the best probe in every reachable state: it is the
/// placeholder exactly while no measurement has succeeded, and otherwise a
/// probe at least as close as every successful one.
pub open spec fn best_is_closest(m: SearchModel) -> bool {
    &&& m.probes.len() <= MAX_PROBES
    &&& !m.accepted ==> forall|i: int|
        0 <= i < m.probes.len() ==> distance(m.target, #[trigger] m.probes[i].1) > TOLERANCE
    &&& m.best.1 == 0 ==> m.best == (START_CRF as int, 0int) && forall|i: int|
        0 <= i < m.probes.len() ==> (#[trigger] m.probes[i]).1 == 0
    &&& m.best.1 != 0 ==> m.probes.contains(m.best) && forall|i: int|
        0 <= i < m.probes.len() && (#[trigger] m.probes[i]).1 != 0 ==> distance(m.target, m.best.1)
            <= distance(m.target, m.probes[i].1)
}

proof fn lemma_advance_keeps_closest(m: SearchModel, vmaf: int)
    requires
        best_is_closest(m),
        !is_done(m),
    ensures
        best_is_closest(advance(m, vmaf)),
{
    let n = advance(m, vmaf);
    let p = (m.crf, vmaf);
    assert(n.probes[n.probes.len() - 1] == p);
    assert forall|i: int| 0 <= i < m.probes.len() implies n.probes[i] == m.probes[i] by {}
    if m.probes.contains(m.best) {
        let j = choose|j: int| 0 <= j < m.probes.len() && m.probes[j] == m.best;
        assert(n.probes[j] == m.best);
    }
    if n.best == p {
        assert(n.probes.contains(p));
    }
    assert forall|i: int| 0 <= i < n.probes.len() && n.best.1 == 0 implies (
    #[trigger] n.probes[i]).1 == 0 by {
        if i < m.probes.len() {
            assert(n.probes[i] == m.probes[i]);
        }
    }
    assert forall|i: int| 0 <= i < n.probes.len() && (#[trigger] n.probes[i]).1 != 0 && n.best.1
        != 0 implies distance(n.target, n.best.1) <= distance(n.target, n.probes[i].1) by {
        if i < m.probes.len() {
            assert(n.probes[i] == m.probes[i]);
            assert(distance(m.target, m.probes[i].1) > TOLERANCE);
        }
    }
    assert forall|i: int| 0 <= i < n.probes.len() && !n.accepted implies distance(
        n.target,
        #[trigger] n.probes[i].1,
    ) > TOLERANCE by {
        if i < m.probes.len() {
            assert(n.probes[i] == m.probes[i]);
        }
    }
}

proof fn lemma_run_keeps_closest(m: SearchModel, measure: spec_fn(int) -> int, fuel: nat)
    requires
        best_is_closest(m),
    ensures
        best_is_closest(run(m, measure, fuel)),
        run(m, measure, fuel).target == m.target,
        fuel >= MAX_PROBES - m.probes.len() ==> is_done(run(m, measure, fuel)),
    decreases fuel,
{
    if fuel > 0 && !is_done(m) {
        lemma_advance_keeps_closest(m, measure(m.crf));
        lemma_run_keeps_closest(advance(m, measure(m.crf)), measure, (fuel - 1) as nat);
    }
}

/// For any target and any deterministic measurement, the search stops within
/// its probe budget. It fails exactly when every measurement failed (scored
/// zero); otherwise its result is a successful probe it made, within
/// tolerance of the target when the search accepted it, and at least as
/// close to the target as every other successful probe.
pub proof fn lemma_search_terminates(target: int, measure: spec_fn(int) -> int)
    requires
        0 <= target <= 100000,
    ensures
        ({
            let r = run(start_model(target), measure, MAX_PROBES as nat);
            &&& is_done(r)
            &&& r.probes.len() <= MAX_PROBES
            &&& outcome_of(r) is Err <==> forall|i: int|
                0 <= i < r.probes.len() ==> (#[trigger] r.probes[i]).1 == 0
            &&& outcome_of(r) matches Ok(b) ==> {
                &&& r.probes.contains(b)
                &&& b.1 != 0
                &&& r.accepted && b == r.probes.last() ==> distance(target, b.1) <= TOLERANCE
                &&& forall|i: int|
                    0 <= i < r.probes.len() && (#[trigger] r.probes[i]).1 != 0 ==> distance(
                        target,
                        b.1,
                    ) <= distance(target, r.probes[i].1)
            }
        }),
{
    let s = start_model(target);
    assert(best_is_closest(s));
    lemma_run_keeps_closest(s, measure, MAX_PROBES as nat);
    let r = run(s, measure, MAX_PROBES as nat);
    lemma_accepted_last(s, measure, MAX_PROBES as nat);
    if outcome_of(r) is Ok {
        let k = choose|k: int| 0 <= k < r.probes.len() && r.probes[k] == r.best;
        assert(r.probes[k].1 != 0);
    }
}

/// Once accepted, the search has stopped at the probe it accepted.
proof fn lemma_accepted_last(m: SearchModel, measure: spec_fn(int) -> int, fuel: nat)
    requires
        !m.accepted,
    ensures
        ({
            let r = run(m, measure, fuel);
            r.accepted ==> r.probes.len() > 0 && distance(r.target, r.probes.last().1)
                <= TOLERANCE
        }),
    decreases fuel,
{
    if fuel > 0 && !is_done(m) {
        let n = advance(m, measure(m.crf));
        if !n.accepted {
            lemma_accepted_last(n, measure, (fuel - 1) as nat);
        } else {
            assert(run(n, measure, (fuel - 1) as nat) == n);
            assert(n.probes.last() == (m.crf, measure(m.crf)));
        }
    }
}

/// A quality search in progress.
pub struct QualitySearch {
    target: u64,
    crf: i64,
    min_crf: i64,
    max_crf: i64,
    best: Probe,
    probes: Vec<Probe>,
    accepted: bool,
}

pub open spec fn probe_pair(p: Probe) -> (int, int) {
    (p.crf as int, p.vmaf as int)
}

/// Bound on every CRF reachable after `n` probes.
spec fn crf_bound(n: int) -> int {
    START_MAX_CRF + 4000 * n
}

impl View for QualitySearch {
    type V = SearchModel;

    closed spec fn view(&self) -> SearchModel {
        SearchModel {
            target: self.target as int,
            crf: self.crf as int,
            min_crf: self.min_crf as int,
            max_crf: self.max_crf as int,
            best: probe_pair(self.best),
            probes: self.probes@.map_values(|p: Probe| probe_pair(p)),
            accepted: self.accepted,
        }
    }
}

impl QualitySearch {
    /// Internal bounds that keep the arithmetic in range.
    pub closed spec fn wf(&self) -> bool {
        let b = crf_bound(self.probes@.len() as int);
        &&& self.probes@.len() <= MAX_PROBES
        &&& -b <= self.crf <= b
        &&& -b <= self.min_crf <= b
        &&& -b <= self.max_crf <= b
        &&& best_is_closest(self@)
    }

    /// A fresh search for `target` (in thousandths of a VMAF point).
    pub fn new(target: u64) -> (s: QualitySearch)
        ensures
            s.wf(),
            s@ == start_model(target as int),
    {
        let s = QualitySearch {
            target,
            crf: START_CRF,
            min_crf: START_MIN_CRF,
            max_crf: START_MAX_CRF,
            best: Probe { crf: START_CRF, vmaf: 0 },
            probes: Vec::new(),
            accepted: false,
        };
        assert(s@.probes =~= Seq::<(int, int)>::empty());
        s
    }

    pub fn is_finished(&self) -> (r: bool)
        ensures
            r == is_done(self@),
    {
        self.accepted || self.probes.len() >= MAX_PROBES || self.min_crf > self.max_crf
    }

    /// The CRF to encode and measure next, or `None` once the search is over.
    pub fn next_crf(&self) -> (r: Option<i64>)
        ensures
            r is None <==> is_done(self@),
            r matches Some(c) ==> c as int == self@.crf,
    {
        if self.is_finished() {
            None
        } else {
            Some(self.crf)
        }
    }

    /// Records the score measured at the CRF that `next_crf` returned. A failed
    /// measurement counts as a score of zero. Once the search is over this
    /// changes nothing.
    pub fn record(&mut self, measured: Option<u64>)
        requires
            old(self).wf(),
        ensures
            final(self).wf(),
            final(self)@ == (if is_done(old(self)@) {
                old(self)@
            } else {
                advance(old(self)@, score_of(measured))
            }),
    {
        if self.is_finished() {
            return;
        }
        let vmaf: u64 = match measured {
            Some(v) => v,
            None => 0,
        };
        let ghost m = self@;
        proof {
            lemma_advance_keeps_closest(m, vmaf as int);
        }
        let e: u64 = if self.target >= vmaf {
            self.target - vmaf
        } else {
            vmaf - self.target
        };
        let probe = Probe { crf: self.crf, vmaf };
        self.probes.push(probe);
        proof {
            assert(self.probes@.map_values(|p: Probe| probe_pair(p)) =~= m.probes.push(
                probe_pair(probe),
            ));
        }
        if e <= TOLERANCE {
            if vmaf != 0 {
                self.best = probe;
            }
            self.accepted = true;
            return;
        }
        let best_e: u64 = if self.target >= self.best.vmaf {
            self.target - self.best.vmaf
        } else {
            self.best.vmaf - self.target
        };
        if vmaf != 0 && (self.best.vmaf == 0 || e < best_e) {
            self.best = probe;
        }
        let step: i64 = if 2000 < e && e <= 3000 {
            3000
        } else if 1000 < e && e <= 2000 {
            2000
        } else if 800 < e && e <= 1000 {
            1000
        } else if 500 < e && e <= 800 {
            500
        } else {
            0
        };
        if step > 0 {
            if vmaf > self.target {
                self.crf = self.crf + step;
            } else {
                self.crf = self.crf - step;
            }
        } else {
            if vmaf > self.target {
                self.min_crf = self.crf;
            } else {
                self.max_crf = self.crf;
            }
            let d: i64 = self.max_crf - self.min_crf;
            let h: i64 = if d >= 0 {
                d / 2
            } else {
                -((-d) / 2)
            };
            self.crf = self.min_crf + h;
        }
    }

    /// Every probe made so far, in order.
    pub fn probes(&self) -> (r: &Vec<Probe>)
        ensures
            r@.map_values(|p: Probe| probe_pair(p)) == self@.probes,
    {
        &self.probes
    }

    /// The closest successful probe, or an error exactly when every
    /// measurement so far failed (scored zero).
    pub fn outcome(&self) -> (r: Result<Probe, SearchError>)
        requires
            self.wf(),
        ensures
            r is Err <==> forall|i: int|
                0 <= i < self@.probes.len() ==> (#[trigger] self@.probes[i]).1 == 0,
            r matches Ok(p) ==> self@.probes.contains(probe_pair(p)) && p.vmaf != 0,
            r matches Ok(p) ==> outcome_of(self@) == Ok::<(int, int), SearchError>(probe_pair(p)),
            r matches Err(e) ==> outcome_of(self@) == Err::<(int, int), SearchError>(e),
    {
        proof {
            if self.best.vmaf != 0 {
                let k = choose|k: int|
                    0 <= k < self@.probes.len() && self@.probes[k] == self@.best;
                assert(self@.probes[k].1 != 0);
            }
        }
        if self.best.vmaf != 0 {
            Ok(self.best)
        } else {
            Err(SearchError::NoUsableMeasurement)
        }
    }
}

/// One entry of the diagnostic probe log.
#[derive(Clone, Copy, Debug, PartialEq, Eq)]
pub struct QualityProbe {
    pub scene_index: usize,
    pub crf: i64,
    pub vmaf: u64,
    /// 1 for the first probe of the scene.
    pub iteration: usize,
}

impl QualitySearch {
    /// The probes made so far as log entries for `scene_index`, in order.
    pub fn log_entries(&self, scene_index: usize) -> (r: Vec<QualityProbe>)
        ensures
            r@.len() == self@.probes.len(),
            forall|i: int|
                0 <= i < r@.len() ==> {
                    &&& (#[trigger] r@[i]).scene_index == scene_index
                    &&& r@[i].iteration == i + 1
                    &&& (r@[i].crf as int, r@[i].vmaf as int) == self@.probes[i]
                },
    {
        let mut r: Vec<QualityProbe> = Vec::new();
        let mut i: usize = 0;
        while i < self.probes.len()
            invariant
                i <= self.probes@.len(),
                r@.len() == i,
                forall|k: int|
                    0 <= k < i ==> {
                        &&& (#[trigger] r@[k]).scene_index == scene_index
                        &&& r@[k].iteration == k + 1
                        &&& r@[k].crf == self.probes@[k].crf
                        &&& r@[k].vmaf == self.probes@[k].vmaf
                    },
            decreases self.probes@.len() - i,
        {
            let p = self.probes[i];
            r.push(QualityProbe { scene_index, crf: p.crf, vmaf: p.vmaf, iteration: i + 1 });
            i = i + 1;
        }
        r
    }
}

pub open spec fn score_of(measured: Option<u64>) -> int {
    match measured {
        Some(v) => v as int,
        None => 0,
    }
}

} // verus!

use transrustica::search::{Probe, QualitySearch, SearchError};

fn run(target: u64, scores: &[Option<u64>]) -> (QualitySearch, Vec<i64>) {
    let mut s = QualitySearch::new(target);
    let mut tried = Vec::new();
    for m in scores {
        match s.next_crf() {
            Some(c) => {
                tried.push(c);
                s.record(*m);
            }
            None => break,
        }
    }
    (s, tried)
}

#[test]
fn concrete_scenario_three_probes() {
    let (s, tried) = run(97000, &[Some(90000), Some(98500), Some(97200)]);
    assert_eq!(tried, vec![23000, 16500, 18500]);
    assert!(s.is_finished());
    assert_eq!(s.next_crf(), None);
    assert_eq!(s.probes().len(), 3);
    assert_eq!(s.outcome(), Ok(Probe { crf: 18500, vmaf: 97200 }));
}

#[test]
fn accepts_first_probe_within_tolerance() {
    let (s, tried) = run(97000, &[Some(96500), Some(1), Some(1)]);
    assert_eq!(tried, vec![23000]);
    assert_eq!(s.outcome(), Ok(Probe { crf: 23000, vmaf: 96500 }));
}

#[test]
fn keeps_closest_probe_when_budget_runs_out() {
    let (s, tried) = run(97000, &[Some(80000), Some(99000), Some(95000), Some(97000)]);
    assert_eq!(tried, vec![23000, 16500, 18500]);
    assert!(s.is_finished());
    assert_eq!(s.outcome(), Ok(Probe { crf: 16500, vmaf: 99000 }));
}

#[test]
fn no_successful_measurement_is_a_failure() {
    let (s, tried) = run(97000, &[None, None, None]);
    assert_eq!(tried, vec![23000, 16500, 13250]);
    assert_eq!(s.outcome(), Err(SearchError::NoUsableMeasurement));
}

#[test]
fn step_bands() {
    // e = 3.0: step 3
    let mut s = QualitySearch::new(97000);
    s.record(Some(94000));
    assert_eq!(s.next_crf(), Some(20000));
    // e = 2.0: step 2, above target raises the CRF
    let mut s = QualitySearch::new(97000);
    s.record(Some(99000));
    assert_eq!(s.next_crf(), Some(25000));
    // e = 1.0: step 1
    let mut s = QualitySearch::new(97000);
    s.record(Some(96000));
    assert_eq!(s.next_crf(), Some(22000));
    // e = 0.8: step 0.5
    let mut s = QualitySearch::new(97000);
    s.record(Some(97800));
    assert_eq!(s.next_crf(), Some(23500));
    // e = 0.5: accepted
    let mut s = QualitySearch::new(97000);
    s.record(Some(97500));
    assert_eq!(s.next_crf(), None);
    // e > 3 above target: bisection toward higher CRF
    let mut s = QualitySearch::new(90000);
    s.record(Some(99000));
    assert_eq!(s.next_crf(), Some(34000));
}

#[test]
fn record_after_finish_changes_nothing() {
    let (mut s, _) = run(97000, &[Some(97000)]);
    s.record(Some(10));
    assert_eq!(s.probes().len(), 1);
    assert_eq!(s.outcome(), Ok(Probe { crf: 23000, vmaf: 97000 }));
}

#[test]
fn search_terminates_for_fixed_measurement() {
    for target in [0u64, 1000, 50000, 97000, 100000] {
        let mut s = QualitySearch::new(target);
        let mut n = 0;
        while let Some(c) = s.next_crf() {
            let score = ((c.unsigned_abs() * 7) % 100000) as u64;
            s.record(Some(score));
            n += 1;
            assert!(n <= 3);
        }
        assert!(s.probes().len() <= 3);
        if let Ok(best) = s.outcome() {
            let d = |v: u64| if v > target { v - target } else { target - v };
            assert!(s.probes().iter().any(|p| *p == best));
            assert!(best.vmaf != 0);
            assert!(s.probes().iter().filter(|p| p.vmaf != 0).all(|p| d(best.vmaf) <= d(p.vmaf)));
        } else {
            assert!(s.probes().iter().all(|p| p.vmaf == 0));
        }
    }
}

#[test]
fn probe_log_entries() {
    let (s, _) = run(97000, &[Some(90000), Some(98500)]);
    let log = s.log_entries(4);
    assert_eq!(log.len(), 2);
    assert_eq!(log[0], transrustica::search::QualityProbe { scene_index: 4, crf: 23000, vmaf: 90000, iteration: 1 });
    assert_eq!(log[1].iteration, 2);
    assert_eq!(log[1].crf, 16500);
}

#[test]
fn successful_measurements_always_give_a_result() {
    let (s, tried) = run(40000, &[Some(80000), Some(80000), Some(80000)]);
    assert_eq!(tried, vec![23000, 34000, 39500]);
    assert_eq!(s.outcome(), Ok(Probe { crf: 23000, vmaf: 80000 }));
}

#[test]
fn failed_measurement_never_becomes_best() {
    let (s, tried) = run(97000, &[Some(90000), None, None]);
    assert_eq!(tried.len(), 3);
    assert_eq!(s.outcome(), Ok(Probe { crf: 23000, vmaf: 90000 }));
    let (s, _) = run(97000, &[None, Some(60000), None]);
    assert_eq!(s.outcome(), Ok(Probe { crf: 16500, vmaf: 60000 }));
}

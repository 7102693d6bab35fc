use transrustica::checkpoint::LedgerEntry;
use transrustica::progress::{
    estimate_size, frame_at_ms, frame_map, resume_position, scene_frames, FrameRate,
    ProgressAggregator, SceneFrames, SizeEstimate,
};
use transrustica::segment::Scene;

const PAL: FrameRate = FrameRate { num: 25, den: 1 };

#[test]
fn frames_from_rational_rate() {
    assert_eq!(frame_at_ms(1000, FrameRate { num: 24000, den: 1001 }), 23);
    assert_eq!(frame_at_ms(60000, FrameRate { num: 24000, den: 1001 }), 1438);
    assert_eq!(frame_at_ms(0, PAL), 0);
}

#[test]
fn scene_frame_mapping() {
    let s = Scene { index: 2, start_ms: 2000, end_ms: 4500 };
    assert_eq!(
        scene_frames(&s, PAL),
        SceneFrames { index: 2, start_frame: 50, end_frame: 112, frames: 62 }
    );
    let m = frame_map(&vec![Scene { index: 0, start_ms: 0, end_ms: 2000 }, s], PAL);
    assert_eq!(m.len(), 2);
    assert_eq!(m[0].frames, 50);
}

#[test]
fn resume_position_skips_completed_frames() {
    let pending = vec![
        Scene { index: 3, start_ms: 6000, end_ms: 8000 },
        Scene { index: 4, start_ms: 8000, end_ms: 10000 },
    ];
    assert_eq!(resume_position(250, &pending, PAL), 150);
    assert_eq!(resume_position(50, &pending, PAL), 0);
    assert_eq!(resume_position(250, &vec![], PAL), 250);
}

#[test]
fn size_estimate_formula() {
    let ledger = vec![LedgerEntry { index: 0, original_kb: 400, encoded_kb: 200 }];
    assert_eq!(
        estimate_size(100, 1100, &ledger),
        Some(SizeEstimate { output_kb: 700, ratio_bp: 6000 })
    );
    assert_eq!(
        estimate_size(100, 1100, &vec![]),
        Some(SizeEstimate { output_kb: 1100, ratio_bp: 10000 })
    );
    assert_eq!(estimate_size(0, 1100, &vec![]), None);
    let grown = vec![LedgerEntry { index: 0, original_kb: 100, encoded_kb: 300 }];
    assert_eq!(
        estimate_size(0, 1000, &grown),
        Some(SizeEstimate { output_kb: 3000, ratio_bp: 30000 })
    );
    let huge = vec![
        LedgerEntry { index: 0, original_kb: u64::MAX, encoded_kb: 1 },
        LedgerEntry { index: 1, original_kb: 1, encoded_kb: 1 },
    ];
    assert_eq!(estimate_size(0, 10, &huge), None);
}

#[test]
fn report_before_any_file() {
    let p = ProgressAggregator::new();
    let r = p.report(None);
    assert_eq!(r.fps, 0);
    assert_eq!(r.frames, 0);
    assert_eq!(r.percentage_bp, 0);
    assert!(r.id.is_empty());
    assert_eq!(r.current_file_name, b"Unknown".to_vec());
}

#[test]
fn report_holds_latest_values() {
    let mut p = ProgressAggregator::new();
    p.add_frames(5);
    assert!(p.latest.is_none());
    p.begin_file(b"task".to_vec(), b"movie".to_vec(), 1, 3, 1000, 10);
    p.set_position(250, 30);
    p.add_frames(10);
    p.set_estimate(SizeEstimate { output_kb: 700, ratio_bp: 6000 });
    p.set_scenes_done(4);
    let r = p.report(None);
    assert_eq!(r.id, b"task".to_vec());
    assert_eq!(r.frame, 260);
    assert_eq!(r.fps, 30);
    assert_eq!(r.percentage_bp, 2600);
    assert_eq!(r.expected_kb, 700);
    assert_eq!(r.current_file_count, 1);
    assert_eq!(r.total_files, 3);
    assert_eq!(r.current_file_name, b"movie".to_vec());
    assert_eq!(p.latest.as_ref().unwrap().scenes_done, 4);
    assert_eq!(p.report(Some(b"other".to_vec())).id, b"other".to_vec());
    p.add_frames(u64::MAX);
    assert_eq!(p.report(None).frame, u64::MAX);
}

#[test]
fn report_names_the_file_by_its_stem() {
    let mut p = ProgressAggregator::new();
    p.begin_file(vec![], b"/media/show.s01e02.mkv".to_vec(), 1, 1, 10, 1);
    assert_eq!(p.report(None).current_file_name, b"show.s01e02".to_vec());
}

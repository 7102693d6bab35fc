use transrustica::segment::{
    merge_boundaries, parse_scene_time, scan_finished, scenes_from_boundaries, BoundaryMerger,
    Scene,
};

#[test]
fn parses_showinfo_timestamp() {
    let line = b"[Parsed_showinfo_1 @ 0x55] n:   3 pts:  12012 pts_time:12.5125  duration:1";
    assert_eq!(parse_scene_time(line), Some(12512));
    assert_eq!(parse_scene_time(b"pts_time:7 "), Some(7000));
    assert_eq!(parse_scene_time(b"pts_time:3.14159"), Some(3141));
    assert_eq!(parse_scene_time(b"pts_time:0.5"), Some(500));
    assert_eq!(parse_scene_time(b"pts_time:abc"), None);
    assert_eq!(parse_scene_time(b"nothing here"), None);
    assert_eq!(parse_scene_time(b""), None);
}

#[test]
fn detects_end_of_scan() {
    assert!(scan_finished(b"[out#0/null @ 0x1] video:1kB"));
    assert!(!scan_finished(b"pts_time:1.0"));
}

#[test]
fn merges_close_boundaries() {
    let b = merge_boundaries(&vec![1000, 2500, 3500, 9000, 9500], 2000, 10000);
    assert_eq!(b, vec![0, 2500, 9000, 10000]);
    for w in b.windows(2).take(b.len() - 2) {
        assert!(w[1] - w[0] >= 2000);
    }
}

#[test]
fn drops_detections_outside_the_file() {
    assert_eq!(merge_boundaries(&vec![5000, 12000], 1000, 10000), vec![0, 5000, 10000]);
    assert_eq!(merge_boundaries(&vec![4000, 3000], 1000, 10000), vec![0, 4000, 10000]);
}

#[test]
fn no_detection_gives_one_scene() {
    let b = merge_boundaries(&vec![], 2000, 7000);
    assert_eq!(b, vec![0, 7000]);
    let s = scenes_from_boundaries(&b);
    assert_eq!(s, vec![Scene { index: 0, start_ms: 0, end_ms: 7000 }]);
}

#[test]
fn scenes_cover_the_file() {
    let b = merge_boundaries(&vec![2100, 4300, 4400, 8000], 2000, 9000);
    let s = scenes_from_boundaries(&b);
    assert_eq!(s.len(), b.len() - 1);
    assert_eq!(s[0].start_ms, 0);
    assert_eq!(s[s.len() - 1].end_ms, 9000);
    for i in 0..s.len() - 1 {
        assert_eq!(s[i].end_ms, s[i + 1].start_ms);
        assert!(s[i].end_ms > s[i].start_ms);
        assert_eq!(s[i].index, i);
    }
}

#[test]
fn scenes_from_short_lists() {
    assert!(scenes_from_boundaries(&vec![]).is_empty());
    assert!(scenes_from_boundaries(&vec![0]).is_empty());
}

#[test]
fn merger_reports_kept_detections() {
    let mut m = BoundaryMerger::new(2000, 10000);
    assert!(!m.offer(1500));
    assert!(m.offer(2000));
    assert!(!m.offer(3999));
    assert!(m.offer(4000));
    assert!(!m.offer(10000));
    assert_eq!(m.finish(), vec![0, 2000, 4000, 10000]);
}

use transrustica::progress::FrameRate;
use transrustica::protocol::{
    format_crf, format_timecode, is_frame_tick, parse_copy_size, parse_encoded_size, parse_fps, parse_frame,
    parse_frame_rate, parse_search_crf, parse_vmaf_score, EncodeTracker,
};

#[test]
fn status_line_fields() {
    let line = b"frame=  240 fps= 31 q=28.0 size=    1024kB time=00:00:10.00 speed=1.2x";
    assert_eq!(parse_frame(line), Some(240));
    assert_eq!(parse_fps(line), Some(31));
    assert_eq!(parse_frame(b"frame=abc frame=5"), Some(5));
    assert_eq!(parse_frame(b"fps=3"), None);
    assert_eq!(parse_fps(b"fps=23.98"), Some(23));
    assert_eq!(parse_frame(b"frame=99999999999999999999999"), None);
}

#[test]
fn vmaf_score_line() {
    let out = b"[Parsed_libvmaf_4 @ 0x1] frame 1\n[libvmaf @ 0x1] VMAF score: 97.153263\n";
    assert_eq!(parse_vmaf_score(out), Some(97153));
    assert_eq!(parse_vmaf_score(b"VMAF score: 90\r\nVMAF score: 10"), Some(90000));
    assert_eq!(parse_vmaf_score(b"VMAF score: 9x"), None);
    assert_eq!(parse_vmaf_score(b"no score"), None);
}

#[test]
fn encoded_size_summary() {
    assert_eq!(parse_encoded_size(b"[out#0/nut @ 0x5] video:470kB audio:0kB"), Some(470));
    assert_eq!(parse_encoded_size(b"[out#0/null @ 0x5] video: 12kB audio:0kB"), Some(12));
    assert_eq!(parse_encoded_size(b"video:470kB"), None);
    assert_eq!(parse_encoded_size(b"[out#0/nut @ 0x5] video:470MB"), Some(0));
    assert_eq!(parse_encoded_size(b"[out#0/mkv @ 0x5] video:abc 12kB audio:3kB"), Some(12));
    assert_eq!(parse_encoded_size(b"[out#0/mkv @ 0x5] video:x12kB 7kB"), Some(7));
    assert_eq!(parse_encoded_size(b"[out#0/mkv @ 0x5] video:12kBs"), Some(0));
    assert_eq!(parse_encoded_size(b"[out#0/mkv @ 0x5] audio:0kB"), None);
    assert_eq!(parse_copy_size(b"[out#0/null @ 0x1] video:1200kB audio:0kB"), Some(1200));
    assert_eq!(parse_copy_size(b"[out#0/nut @ 0x1] video:1200kB"), None);
}

#[test]
fn frame_rates() {
    assert_eq!(parse_frame_rate(b"24000/1001\n"), Some(FrameRate { num: 24000, den: 1001 }));
    assert_eq!(parse_frame_rate(b"25/1"), Some(FrameRate { num: 25, den: 1 }));
    assert_eq!(parse_frame_rate(b"30/0"), None);
    assert_eq!(parse_frame_rate(b"30"), None);
    assert_eq!(parse_frame_rate(b"abc"), None);
}

#[test]
fn whole_file_search_result() {
    let out = b"crf 21 VMAF 97.15 predicted video stream size 6.60 GiB (72%) taking 21 minutes\n";
    assert_eq!(parse_search_crf(out), Some(b"21".to_vec()));
    assert_eq!(parse_search_crf(b"crf"), None);
    assert_eq!(parse_search_crf(b""), None);
}

#[test]
fn timecodes() {
    assert_eq!(format_timecode(3723004), b"01:02:03.004".to_vec());
    assert_eq!(format_timecode(0), b"00:00:00.000".to_vec());
    assert_eq!(format_timecode(360000000), b"100:00:00.000".to_vec());
}

#[test]
fn crf_text() {
    assert_eq!(format_crf(17500), b"17.500".to_vec());
    assert_eq!(format_crf(23000), b"23.000".to_vec());
    assert_eq!(format_crf(-500), b"-0.500".to_vec());
}

#[test]
fn encode_tracker_caps_ticks() {
    assert!(is_frame_tick(b"[Parsed_showinfo_0 @ 0x1] n:   0 pts: 0"));
    let mut t = EncodeTracker::new(2);
    let tick = b"[Parsed_showinfo_0 @ 0x1] n:   0 pts: 0";
    assert_eq!(t.on_line(tick), 1);
    assert_eq!(t.on_line(tick), 1);
    assert_eq!(t.on_line(tick), 0);
    assert_eq!(t.on_line(b"[out#0/matroska @ 0x2] video:470kB audio:0kB"), 0);
    assert_eq!(t.size_kb, 470);
    assert_eq!(t.on_line(b"[out#0/matroska @ 0x2] video:0kB"), 0);
    assert_eq!(t.size_kb, 470);
    assert_eq!(t.seen, 2);
}

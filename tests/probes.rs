use transrustica::paths::{chunked_output_name, classify_input, InputError};
use transrustica::progress::{project_output, scan_report, Projection, ScanProgress};
use transrustica::protocol::{map_metadata_arguments, parse_plain_count, parse_plain_decimal};

#[test]
fn plain_probe_values() {
    assert_eq!(parse_plain_decimal(b"123.456000\n"), Some(123456));
    assert_eq!(parse_plain_decimal(b"42"), Some(42000));
    assert_eq!(parse_plain_decimal(b"N/A"), None);
    assert_eq!(parse_plain_decimal(b"1.5 2"), None);
    assert_eq!(parse_plain_count(b" 64936\n"), Some(64936));
    assert_eq!(parse_plain_count(b"12.5"), None);
    assert_eq!(parse_plain_count(b""), None);
}

#[test]
fn metadata_mapping_arguments() {
    assert_eq!(
        String::from_utf8(map_metadata_arguments(b'a', 2)).unwrap(),
        "-map_metadata:s:a:0 0:s:a:0 -map_metadata:s:a:1 0:s:a:1 "
    );
    assert!(map_metadata_arguments(b's', 0).is_empty());
}

#[test]
fn scan_progress_report() {
    assert_eq!(scan_report(None), ScanProgress { count: 0, total: 0 });
    let p = ScanProgress { count: 3, total: 9 };
    assert_eq!(scan_report(Some(p)), p);
}

#[test]
fn transcode_projection() {
    assert_eq!(
        project_output(256, 100, 1000, 10240),
        Some(Projection { output_kb: 2560, percent_bp: 2500 })
    );
    assert_eq!(project_output(256, 0, 1000, 10240), None);
    assert_eq!(project_output(256, 10, 1000, 0), None);
}

#[test]
fn input_paths() {
    assert_eq!(classify_input(b"C:\\videos\" rest", false, false), Ok(b"C:\\videos".to_vec()));
    assert_eq!(classify_input(b"/v", true, true), Ok(b"/v".to_vec()));
    assert_eq!(classify_input(b"/x.mkv", false, false), Err(InputError::NotFound));
    assert_eq!(classify_input(b"/x.mov", false, true), Err(InputError::UnsupportedFormat));
    assert_eq!(classify_input(b"/x", false, true), Err(InputError::UnsupportedFormat));
    assert_eq!(classify_input(b"/x.mp4", false, true), Ok(b"/x.mp4".to_vec()));
}

#[test]
fn chunked_output_names() {
    assert_eq!(
        chunked_output_name(b"/m/movie.part1.mkv", b"libx265", 97, b"mean", 1),
        Some(b"movie.libx265.vmaf97.mean.subsample1.mkv".to_vec())
    );
    assert_eq!(chunked_output_name(b"/m/movie", b"libx265", 97, b"mean", 1), None);
}

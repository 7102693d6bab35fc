use transrustica::config::{
    encoder_from_name, parse_count, whole_file_quality_flag, parse_mode, parse_pool, rate_control,
    vmaf_subsample_input_validation, vmaf_thread_input_validation, CountError, Encoder,
    EncoderProfile, EncoderProfiles, LadderStep, Mode, RateControl, TargetLadder, VmafPool,
};
use transrustica::paths::{
    file_name, is_video_file, set_output_folder_filename, set_output_folder_filename_audio,
    split_file_name, trim,
};

#[test]
fn modes_and_pools() {
    assert_eq!(parse_mode(b"default"), Some(Mode::Default));
    assert_eq!(parse_mode(b"chunked"), Some(Mode::Chunked));
    assert_eq!(parse_mode(b"fast"), None);
    assert_eq!(parse_pool(b"min"), Some(VmafPool::Min));
    assert_eq!(parse_pool(b"harmonic_mean"), Some(VmafPool::HarmonicMean));
    assert_eq!(parse_pool(b"mean"), Some(VmafPool::Mean));
    assert_eq!(parse_pool(b"max"), None);
}

#[test]
fn counts() {
    assert_eq!(vmaf_subsample_input_validation(b"100"), Ok(100));
    assert_eq!(vmaf_subsample_input_validation(b"101"), Err(CountError::TooLarge));
    assert_eq!(vmaf_subsample_input_validation(b"1a"), Err(CountError::NotInteger));
    assert_eq!(vmaf_subsample_input_validation(b""), Err(CountError::NotInteger));
    assert_eq!(parse_count(b"007", 8), Ok(7));
}

#[test]
fn thread_count_against_cores() {
    assert_eq!(vmaf_thread_input_validation(b"1"), Ok(1));
    assert_eq!(vmaf_thread_input_validation(b"0"), Ok(0));
    assert_eq!(vmaf_thread_input_validation(b"99999999999"), Err(CountError::TooLarge));
    assert_eq!(vmaf_thread_input_validation(b"two"), Err(CountError::NotInteger));
}

#[test]
fn encoders() {
    assert_eq!(encoder_from_name(b"hevc_nvenc"), Encoder::HevcNvenc);
    assert_eq!(encoder_from_name(b"av1"), Encoder::Av1);
    assert_eq!(encoder_from_name(b"x264"), Encoder::Other);
    assert_eq!(rate_control(Encoder::Libx265), RateControl::Crf);
    assert_eq!(rate_control(Encoder::HevcNvenc), RateControl::ConstantQuality);
    assert_eq!(rate_control(Encoder::Av1Qsv), RateControl::GlobalQuality);
    assert_eq!(rate_control(Encoder::Libsvtav1), RateControl::EncoderDefault);
    let p = |s: &str| EncoderProfile { preset: s.as_bytes().to_vec(), params: vec![] };
    let profiles = EncoderProfiles {
        x265: p("slow"),
        hevc_nvenc: p("p7"),
        hevc_qsv: p("veryslow"),
        libaom_av1: p("4"),
        av1_qsv: p("1"),
        libsvtav1: p("5"),
    };
    assert_eq!(profiles.profile_for(Encoder::HevcNvenc).preset, b"p7".to_vec());
    assert_eq!(profiles.profile_for(Encoder::Other).preset, b"slow".to_vec());
}

#[test]
fn target_ladder() {
    let mut l = TargetLadder::new(97, 3);
    assert_eq!(l.report(None), LadderStep::Retry { vmaf: 96 });
    assert_eq!(l.report(None), LadderStep::Retry { vmaf: 95 });
    assert!(l.can_retry());
    assert_eq!(l.report(None), LadderStep::GiveUp);
    assert!(!l.can_retry());
    let mut l = TargetLadder::new(97, 3);
    assert_eq!(l.report(Some(b"21".to_vec())), LadderStep::Found { crf: b"21".to_vec(), vmaf: 97 });
    let mut l = TargetLadder::new(0, 5);
    assert_eq!(l.report(None), LadderStep::GiveUp);
}

#[test]
fn file_names() {
    assert_eq!(file_name(b"C:\\v\\a.mp4"), b"a.mp4".to_vec());
    assert_eq!(file_name(b"/media/b.mkv"), b"b.mkv".to_vec());
    assert_eq!(split_file_name(b"archive.tar.gz"), (b"archive.tar".to_vec(), Some(b"gz".to_vec())));
    assert_eq!(split_file_name(b".hidden"), (b".hidden".to_vec(), None));
    assert_eq!(split_file_name(b"noext"), (b"noext".to_vec(), None));
    assert_eq!(trim(b"  21 \n"), b"21".to_vec());
}

#[test]
fn video_files() {
    assert!(is_video_file(b"/a/b/c.mkv"));
    assert!(is_video_file(b"x.ts"));
    assert!(!is_video_file(b"c.MKV"));
    assert!(!is_video_file(b".mkv"));
    assert!(!is_video_file(b"notes.txt"));
}

#[test]
fn output_file_names() {
    assert_eq!(
        set_output_folder_filename(b"/media/movie.mkv", b"libx265", 97, b" 21 ", b"out"),
        Some(b"out\\movie.libx265.vmaf97.crf21.mkv".to_vec())
    );
    assert_eq!(set_output_folder_filename(b"/media/movie", b"libx265", 97, b"21", b"out"), None);
    assert_eq!(
        set_output_folder_filename_audio(b"/media/movie.mkv", b"out"),
        Some(b"out\\movie.mkv".to_vec())
    );
}

#[test]
fn whole_file_quality_flags() {
    assert_eq!(whole_file_quality_flag(Encoder::HevcNvenc), Some(b"-cq".to_vec()));
    assert_eq!(whole_file_quality_flag(Encoder::HevcQsv), Some(b"-global_quality:v".to_vec()));
    assert_eq!(whole_file_quality_flag(Encoder::Libx265), None);
    assert_eq!(whole_file_quality_flag(Encoder::Av1Qsv), None);
}

use transrustica::catalog::{
    audio_stream_args, file_status, is_compatible_audio, needs_work, FileStatus,
    CATALOG_BITRATE_THRESHOLD, RUN_BITRATE_THRESHOLD,
};

#[test]
fn status_from_bitrate_and_audio() {
    let t = RUN_BITRATE_THRESHOLD;
    assert_eq!(file_status(5_000_000, t, b"aac"), FileStatus::PendingVideo);
    assert_eq!(file_status(1_000_000, t, b"opus"), FileStatus::Skipped);
    assert_eq!(file_status(1_000_000, t, b"dts"), FileStatus::PendingAudio);
    assert_eq!(file_status(5_000_000, t, b"truehd"), FileStatus::PendingAll);
    assert_eq!(file_status(3_000_000, t, b"mp3"), FileStatus::PendingVideo);
    assert_eq!(file_status(3_000_000, t, b"flac"), FileStatus::PendingAudio);
    assert_eq!(file_status(5_000_000, CATALOG_BITRATE_THRESHOLD, b"aac"), FileStatus::Skipped);
}

#[test]
fn which_statuses_need_work() {
    assert!(!needs_work(FileStatus::Skipped));
    assert!(needs_work(FileStatus::Processing));
    assert!(needs_work(FileStatus::PendingAll));
    assert!(is_compatible_audio(b"aac"));
    assert!(!is_compatible_audio(b"AAC"));
}

#[test]
fn audio_conversion_arguments() {
    assert_eq!(audio_stream_args(0, b"aac", b"6"), Some(vec![]));
    assert_eq!(
        String::from_utf8(audio_stream_args(1, b"ac3", b"2").unwrap()).unwrap(),
        "-c:a:1 libopus -b:a 128k -ac 2"
    );
    assert_eq!(
        String::from_utf8(audio_stream_args(0, b"eac3", b"6").unwrap()).unwrap(),
        "-c:a:0 libopus -af channelmap=channel_layout=5.1 -b:a 256k"
    );
    assert_eq!(
        String::from_utf8(audio_stream_args(12, b"truehd", b"8").unwrap()).unwrap(),
        "-c:a:12 libopus -af channelmap=channel_layout=7.1 -b:a 450k"
    );
    assert_eq!(audio_stream_args(0, b"dts", b"1"), None);
}

//! Which files need work and why: the status a file gets from its video
//! bitrate and audio codec, and the audio conversion each stream needs.
use vstd::prelude::*;
use crate::text::{decimal, push_decimal, same_bytes};

verus! {

/// Processing status of a catalogued file.
#[derive(Clone, Copy, Debug, PartialEq, Eq)]
pub enum FileStatus {
    PendingVideo,
    PendingAudio,
    PendingAll,
    Skipped,
    Processing,
}

/// Video bitrate (bits per second) above which a file's video is re-encoded
/// when it is picked for a run.
pub const RUN_BITRATE_THRESHOLD: u64 = 3_000_000;

/// Video bitrate (bits per second) above which the catalog marks a file's
/// video as pending.
pub const CATALOG_BITRATE_THRESHOLD: u64 = 6_000_000;

/// Audio codecs kept as they are: `aac`, `opus`, `mp3`.
pub open spec fn compatible_audio(codec: Seq<u8>) -> bool {
    codec == seq![97u8, 97, 99] || codec == seq![111u8, 112, 117, 115] || codec == seq![
        109u8,
        112,
        51,
    ]
}

/// The status of a file: audio in another codec must be converted, video
/// above the threshold must be re-encoded; a file at exactly the threshold
/// counts as pending video.
pub open spec fn status_for(bitrate: u64, threshold: u64, audio_ok: bool) -> FileStatus {
    if bitrate > threshold && !audio_ok {
        FileStatus::PendingAll
    } else if !audio_ok {
        FileStatus::PendingAudio
    } else if bitrate < threshold {
        FileStatus::Skipped
    } else {
        FileStatus::PendingVideo
    }
}

pub fn is_compatible_audio(codec: &[u8]) -> (r: bool)
    ensures
        r == compatible_audio(codec@),
{
    let aac = vec![97u8, 97, 99];
    let opus = vec![111u8, 112, 117, 115];
    let mp3 = vec![109u8, 112, 51];
    assert(aac@ =~= seq![97u8, 97, 99]);
    assert(opus@ =~= seq![111u8, 112, 117, 115]);
    assert(mp3@ =~= seq![109u8, 112, 51]);
    same_bytes(codec, aac.as_slice()) || same_bytes(codec, opus.as_slice()) || same_bytes(
        codec,
        mp3.as_slice(),
    )
}

/// The status of a file whose video runs at `bitrate` bits per second and
/// whose first audio stream is in `audio_codec`.
pub fn file_status(bitrate: u64, threshold: u64, audio_codec: &[u8]) -> (r: FileStatus)
    ensures
        r == status_for(bitrate, threshold, compatible_audio(audio_codec@)),
{
    let audio_ok = is_compatible_audio(audio_codec);
    if bitrate > threshold && !audio_ok {
        FileStatus::PendingAll
    } else if !audio_ok {
        FileStatus::PendingAudio
    } else if bitrate < threshold {
        FileStatus::Skipped
    } else {
        FileStatus::PendingVideo
    }
}

/// Whether a file with this status is picked for a run.
pub fn needs_work(s: FileStatus) -> (r: bool)
    ensures
        r == (s != FileStatus::Skipped),
{
    match s {
        FileStatus::Skipped => false,
        _ => true,
    }
}

/// `-c:a:I libopus -b:a 128k -ac 2`
pub open spec fn stereo_args(i: nat) -> Seq<u8> {
    seq![45u8, 99, 58, 97, 58] + decimal(i) + seq![
        32u8, 108, 105, 98, 111, 112, 117, 115, 32, 45, 98, 58, 97, 32, 49, 50, 56, 107, 32, 45, 97,
        99, 32, 50,
    ]
}

/// `-c:a:I libopus -af channelmap=channel_layout=L -b:a R` for a surround layout.
pub open spec fn surround_args(i: nat, layout_and_rate: Seq<u8>) -> Seq<u8> {
    seq![45u8, 99, 58, 97, 58] + decimal(i) + seq![
        32u8, 108, 105, 98, 111, 112, 117, 115, 32, 45, 97, 102, 32, 99, 104, 97, 110, 110, 101,
        108, 109, 97, 112, 61, 99, 104, 97, 110, 110, 101, 108, 95, 108, 97, 121, 111, 117, 116,
        61,
    ] + layout_and_rate
}

/// `5.1 -b:a 256k`
pub open spec fn five_one() -> Seq<u8> {
    seq![53u8, 46, 49, 32, 45, 98, 58, 97, 32, 50, 53, 54, 107]
}

/// `7.1 -b:a 450k`
pub open spec fn seven_one() -> Seq<u8> {
    seq![55u8, 46, 49, 32, 45, 98, 58, 97, 32, 52, 53, 48, 107]
}

/// The arguments for audio stream `i`: nothing (copied) for a compatible
/// codec; Opus at a rate fitting 2, 6 or 8 channels otherwise; `None` when
/// the stream is left out of the conversion (another channel count).
pub open spec fn audio_args_for(i: nat, codec: Seq<u8>, channels: Seq<u8>) -> Option<Seq<u8>> {
    if compatible_audio(codec) {
        Some(Seq::empty())
    } else if channels == seq![50u8] {
        Some(stereo_args(i))
    } else if channels == seq![54u8] {
        Some(surround_args(i, five_one()))
    } else if channels == seq![56u8] {
        Some(surround_args(i, seven_one()))
    } else {
        None
    }
}

pub fn audio_stream_args(i: u64, codec: &[u8], channels: &[u8]) -> (r: Option<Vec<u8>>)
    ensures
        match (r, audio_args_for(i as nat, codec@, channels@)) {
            (Some(a), Some(b)) => a@ == b,
            (None, None) => true,
            _ => false,
        },
{
    if is_compatible_audio(codec) {
        let e: Vec<u8> = Vec::new();
        assert(e@ =~= Seq::<u8>::empty());
        return Some(e);
    }
    let two = vec![50u8];
    let six = vec![54u8];
    let eight = vec![56u8];
    assert(two@ =~= seq![50u8]);
    assert(six@ =~= seq![54u8]);
    assert(eight@ =~= seq![56u8]);
    let mut r = vec![45u8, 99, 58, 97, 58];
    push_decimal(&mut r, i);
    if same_bytes(channels, two.as_slice()) {
        let mut t = vec![
            32u8, 108, 105, 98, 111, 112, 117, 115, 32, 45, 98, 58, 97, 32, 49, 50, 56, 107, 32, 45,
            97, 99, 32, 50,
        ];
        r.append(&mut t);
        assert(r@ =~= stereo_args(i as nat));
        return Some(r);
    }
    let surround = same_bytes(channels, six.as_slice()) || same_bytes(channels, eight.as_slice());
    if !surround {
        return None;
    }
    let mut t = vec![
        32u8, 108, 105, 98, 111, 112, 117, 115, 32, 45, 97, 102, 32, 99, 104, 97, 110, 110, 101,
        108, 109, 97, 112, 61, 99, 104, 97, 110, 110, 101, 108, 95, 108, 97, 121, 111, 117, 116, 61,
    ];
    r.append(&mut t);
    if same_bytes(channels, six.as_slice()) {
        let mut l = vec![53u8, 46, 49, 32, 45, 98, 58, 97, 32, 50, 53, 54, 107];
        r.append(&mut l);
        assert(r@ =~= surround_args(i as nat, five_one()));
    } else {
        let mut l = vec![55u8, 46, 49, 32, 45, 98, 58, 97, 32, 52, 53, 48, 107];
        r.append(&mut l);
        assert(r@ =~= surround_args(i as nat, seven_one()));
    }
    Some(r)
}

} // verus!

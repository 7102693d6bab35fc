//! Run configuration: validation of the user's choices and the per-encoder
//! rules for presets, parameters and the quality flag.
use vstd::prelude::*;
use crate::text::{digit_end, digits_up_to, digits_value, same_bytes, skip_digits};

verus! {

/// Processing mode.
#[derive(Clone, Copy, Debug, PartialEq, Eq)]
pub enum Mode {
    /// One whole-file quality search, then one encode.
    Default,
    /// Scene-parallel search and encode.
    Chunked,
}

/// How per-frame VMAF scores are pooled.
#[derive(Clone, Copy, Debug, PartialEq, Eq)]
pub enum VmafPool {
    Min,
    HarmonicMean,
    Mean,
}

/// Why a count given by the user was refused.
#[derive(Clone, Copy, Debug, PartialEq, Eq)]
pub enum CountError {
    /// Not a non-empty string of digits.
    NotInteger,
    /// Above the allowed maximum.
    TooLarge,
}

pub open spec fn all_digits(s: Seq<u8>) -> bool {
    s.len() > 0 && digit_end(s, 0) == s.len()
}

/// A count no larger than `max`.
pub open spec fn count_in(s: Seq<u8>, max: int) -> Result<u64, CountError> {
    if !all_digits(s) {
        Err(CountError::NotInteger)
    } else if digits_value(s) > max {
        Err(CountError::TooLarge)
    } else {
        Ok(digits_value(s) as u64)
    }
}

/// Largest VMAF subsampling interval.
pub const MAX_SUBSAMPLE: u64 = 100;

pub open spec fn mode_named(s: Seq<u8>) -> Option<Mode> {
    if s == seq![100u8, 101, 102, 97, 117, 108, 116] {
        Some(Mode::Default)
    } else if s == seq![99u8, 104, 117, 110, 107, 101, 100] {
        Some(Mode::Chunked)
    } else {
        None
    }
}

pub open spec fn pool_named(s: Seq<u8>) -> Option<VmafPool> {
    if s == seq![109u8, 105, 110] {
        Some(VmafPool::Min)
    } else if s == seq![104u8, 97, 114, 109, 111, 110, 105, 99, 95, 109, 101, 97, 110] {
        Some(VmafPool::HarmonicMean)
    } else if s == seq![109u8, 101, 97, 110] {
        Some(VmafPool::Mean)
    } else {
        None
    }
}

/// The mode named `default` or `chunked`.
pub fn parse_mode(s: &[u8]) -> (r: Option<Mode>)
    ensures
        r == mode_named(s@),
{
    let d = vec![100u8, 101, 102, 97, 117, 108, 116];
    let c = vec![99u8, 104, 117, 110, 107, 101, 100];
    assert(d@ =~= seq![100u8, 101, 102, 97, 117, 108, 116]);
    assert(c@ =~= seq![99u8, 104, 117, 110, 107, 101, 100]);
    if same_bytes(s, d.as_slice()) {
        Some(Mode::Default)
    } else if same_bytes(s, c.as_slice()) {
        Some(Mode::Chunked)
    } else {
        None
    }
}

/// The pooling method named `min`, `harmonic_mean` or `mean`.
pub fn parse_pool(s: &[u8]) -> (r: Option<VmafPool>)
    ensures
        r == pool_named(s@),
{
    let a = vec![109u8, 105, 110];
    let b = vec![104u8, 97, 114, 109, 111, 110, 105, 99, 95, 109, 101, 97, 110];
    let c = vec![109u8, 101, 97, 110];
    assert(a@ =~= seq![109u8, 105, 110]);
    assert(b@ =~= seq![104u8, 97, 114, 109, 111, 110, 105, 99, 95, 109, 101, 97, 110]);
    assert(c@ =~= seq![109u8, 101, 97, 110]);
    if same_bytes(s, a.as_slice()) {
        Some(VmafPool::Min)
    } else if same_bytes(s, b.as_slice()) {
        Some(VmafPool::HarmonicMean)
    } else if same_bytes(s, c.as_slice()) {
        Some(VmafPool::Mean)
    } else {
        None
    }
}

/// Parses a count that must not exceed `max`.
pub fn parse_count(s: &[u8], max: u64) -> (r: Result<u64, CountError>)
    ensures
        r == count_in(s@, max as int),
{
    let e = skip_digits(s, 0);
    if s.len() == 0 || e != s.len() {
        return Err(CountError::NotInteger);
    }
    assert(s@.subrange(0, s@.len() as int) =~= s@);
    match digits_up_to(s, 0, e, max) {
        Some(v) => Ok(v),
        None => Err(CountError::TooLarge),
    }
}

/// Relies on `num_cpus::get`: the number of logical cores available to
/// this process, which its documentation promises is at least 1.
#[verifier::external_body]
fn available_cores() -> (r: usize)
    ensures
        r >= 1,
{
    num_cpus::get()
}

/// Validates a VMAF thread count against this machine's logical cores.
pub fn vmaf_thread_input_validation(s: &[u8]) -> (r: Result<u64, CountError>)
    ensures
        exists|cores: usize| cores >= 1 && r == count_in(s@, cores as int),
{
    let cores = available_cores();
    parse_count(s, cores as u64)
}

/// Validates a VMAF subsampling interval (at most `MAX_SUBSAMPLE`).
pub fn vmaf_subsample_input_validation(s: &[u8]) -> (r: Result<u64, CountError>)
    ensures
        r == count_in(s@, MAX_SUBSAMPLE as int),
{
    parse_count(s, MAX_SUBSAMPLE)
}

/// Encoders the engine knows how to drive.
#[derive(Clone, Copy, Debug, PartialEq, Eq)]
pub enum Encoder {
    Libx265,
    HevcNvenc,
    HevcQsv,
    /// libaom, selected by the name `av1`.
    Av1,
    Av1Qsv,
    Libsvtav1,
    /// Any other name; driven with the x265 settings.
    Other,
}

/// How an encoder is told the quality to aim at.
#[derive(Clone, Copy, Debug, PartialEq, Eq)]
pub enum RateControl {
    /// `-crf C`
    Crf,
    /// `-rc:v vbr -cq:v C -qmin C -qmax C`
    ConstantQuality,
    /// `-global_quality C`
    GlobalQuality,
    /// No quality flag.
    EncoderDefault,
}

pub open spec fn encoder_named(s: Seq<u8>) -> Encoder {
    if s == seq![108u8, 105, 98, 120, 50, 54, 53] {
        Encoder::Libx265
    } else if s == seq![104u8, 101, 118, 99, 95, 110, 118, 101, 110, 99] {
        Encoder::HevcNvenc
    } else if s == seq![104u8, 101, 118, 99, 95, 113, 115, 118] {
        Encoder::HevcQsv
    } else if s == seq![97u8, 118, 49] {
        Encoder::Av1
    } else if s == seq![97u8, 118, 49, 95, 113, 115, 118] {
        Encoder::Av1Qsv
    } else if s == seq![108u8, 105, 98, 115, 118, 116, 97, 118, 49] {
        Encoder::Libsvtav1
    } else {
        Encoder::Other
    }
}

pub fn encoder_from_name(s: &[u8]) -> (r: Encoder)
    ensures
        r == encoder_named(s@),
{
    let x265 = vec![108u8, 105, 98, 120, 50, 54, 53];
    let nvenc = vec![104u8, 101, 118, 99, 95, 110, 118, 101, 110, 99];
    let hqsv = vec![104u8, 101, 118, 99, 95, 113, 115, 118];
    let av1 = vec![97u8, 118, 49];
    let aqsv = vec![97u8, 118, 49, 95, 113, 115, 118];
    let svt = vec![108u8, 105, 98, 115, 118, 116, 97, 118, 49];
    assert(x265@ =~= seq![108u8, 105, 98, 120, 50, 54, 53]);
    assert(nvenc@ =~= seq![104u8, 101, 118, 99, 95, 110, 118, 101, 110, 99]);
    assert(hqsv@ =~= seq![104u8, 101, 118, 99, 95, 113, 115, 118]);
    assert(av1@ =~= seq![97u8, 118, 49]);
    assert(aqsv@ =~= seq![97u8, 118, 49, 95, 113, 115, 118]);
    assert(svt@ =~= seq![108u8, 105, 98, 115, 118, 116, 97, 118, 49]);
    if same_bytes(s, x265.as_slice()) {
        Encoder::Libx265
    } else if same_bytes(s, nvenc.as_slice()) {
        Encoder::HevcNvenc
    } else if same_bytes(s, hqsv.as_slice()) {
        Encoder::HevcQsv
    } else if same_bytes(s, av1.as_slice()) {
        Encoder::Av1
    } else if same_bytes(s, aqsv.as_slice()) {
        Encoder::Av1Qsv
    } else if same_bytes(s, svt.as_slice()) {
        Encoder::Libsvtav1
    } else {
        Encoder::Other
    }
}

pub open spec fn rate_control_of(e: Encoder) -> RateControl {
    match e {
        Encoder::Libx265 => RateControl::Crf,
        Encoder::HevcNvenc => RateControl::ConstantQuality,
        Encoder::HevcQsv => RateControl::GlobalQuality,
        Encoder::Av1Qsv => RateControl::GlobalQuality,
        _ => RateControl::EncoderDefault,
    }
}

pub fn rate_control(e: Encoder) -> (r: RateControl)
    ensures
        r == rate_control_of(e),
{
    match e {
        Encoder::Libx265 => RateControl::Crf,
        Encoder::HevcNvenc => RateControl::ConstantQuality,
        Encoder::HevcQsv => RateControl::GlobalQuality,
        Encoder::Av1Qsv => RateControl::GlobalQuality,
        _ => RateControl::EncoderDefault,
    }
}

/// The flag that sets the quality of a whole-file encode: `-cq` for NVENC,
/// `-global_quality:v` for HEVC QSV, none for the other encoders.
pub open spec fn whole_file_quality_flag_of(e: Encoder) -> Option<Seq<u8>> {
    match e {
        Encoder::HevcNvenc => Some(seq![45u8, 99, 113]),
        Encoder::HevcQsv => Some(
            seq![45u8, 103, 108, 111, 98, 97, 108, 95, 113, 117, 97, 108, 105, 116, 121, 58, 118],
        ),
        _ => None,
    }
}

pub fn whole_file_quality_flag(e: Encoder) -> (r: Option<Vec<u8>>)
    ensures
        match (r, whole_file_quality_flag_of(e)) {
            (Some(a), Some(b)) => a@ == b,
            (None, None) => true,
            _ => false,
        },
{
    match e {
        Encoder::HevcNvenc => {
            let f = vec![45u8, 99, 113];
            assert(f@ =~= seq![45u8, 99, 113]);
            Some(f)
        },
        Encoder::HevcQsv => {
            let f = vec![45u8, 103, 108, 111, 98, 97, 108, 95, 113, 117, 97, 108, 105, 116, 121, 58, 118];
            assert(f@ =~= seq![45u8, 103, 108, 111, 98, 97, 108, 95, 113, 117, 97, 108, 105, 116, 121, 58, 118]);
            Some(f)
        },
        _ => None,
    }
}

/// A preset and extra parameters for one encoder.
#[derive(Clone, Debug)]
pub struct EncoderProfile {
    pub preset: Vec<u8>,
    pub params: Vec<u8>,
}

/// The configured profile of every encoder.
#[derive(Clone, Debug)]
pub struct EncoderProfiles {
    pub x265: EncoderProfile,
    pub hevc_nvenc: EncoderProfile,
    pub hevc_qsv: EncoderProfile,
    pub libaom_av1: EncoderProfile,
    pub av1_qsv: EncoderProfile,
    pub libsvtav1: EncoderProfile,
}

impl EncoderProfiles {
    pub open spec fn spec_profile(&self, e: Encoder) -> EncoderProfile {
        match e {
            Encoder::HevcNvenc => self.hevc_nvenc,
            Encoder::HevcQsv => self.hevc_qsv,
            Encoder::Av1 => self.libaom_av1,
            Encoder::Av1Qsv => self.av1_qsv,
            Encoder::Libsvtav1 => self.libsvtav1,
            _ => self.x265,
        }
    }

    /// The profile used for `e`; unknown encoders use the x265 profile.
    pub fn profile_for(&self, e: Encoder) -> (r: &EncoderProfile)
        ensures
            *r == self.spec_profile(e),
    {
        match e {
            Encoder::HevcNvenc => &self.hevc_nvenc,
            Encoder::HevcQsv => &self.hevc_qsv,
            Encoder::Av1 => &self.libaom_av1,
            Encoder::Av1Qsv => &self.av1_qsv,
            Encoder::Libsvtav1 => &self.libsvtav1,
            _ => &self.x265,
        }
    }
}

/// What the whole-file search does next.
#[derive(Clone, Debug, PartialEq, Eq)]
pub enum LadderStep {
    /// A CRF was found for this target.
    Found { crf: Vec<u8>, vmaf: u32 },
    /// Search again with this lower target.
    Retry { vmaf: u32 },
    /// No target down the ladder succeeded within the attempt budget.
    GiveUp,
}

/// The fallback ladder of the whole-file search: after each failed search
/// the target drops by one point, up to a fixed number of attempts.
pub struct TargetLadder {
    pub vmaf: u32,
    pub attempts: u32,
    pub max_attempts: u32,
}

impl TargetLadder {
    pub fn new(vmaf: u32, max_attempts: u32) -> (r: TargetLadder)
        ensures
            r.vmaf == vmaf,
            r.attempts == 0,
            r.max_attempts == max_attempts,
    {
        TargetLadder { vmaf, attempts: 0, max_attempts }
    }

    /// Records the result of a search at the current target.
    pub fn report(&mut self, found: Option<Vec<u8>>) -> (r: LadderStep)
        requires
            old(self).attempts < old(self).max_attempts,
        ensures
            final(self).max_attempts == old(self).max_attempts,
            final(self).attempts == old(self).attempts + 1,
            final(self).attempts <= final(self).max_attempts,
            match found {
                Some(c) => r == (LadderStep::Found { crf: c, vmaf: old(self).vmaf })
                    && final(self).vmaf == old(self).vmaf,
                None => if old(self).vmaf == 0 || final(self).attempts == final(self).max_attempts {
                    r == LadderStep::GiveUp && final(self).vmaf == old(self).vmaf
                } else {
                    final(self).vmaf == old(self).vmaf - 1 && r == (LadderStep::Retry {
                        vmaf: final(self).vmaf,
                    })
                },
            },
    {
        self.attempts = self.attempts + 1;
        match found {
            Some(c) => LadderStep::Found { crf: c, vmaf: self.vmaf },
            None => {
                if self.vmaf == 0 || self.attempts == self.max_attempts {
                    LadderStep::GiveUp
                } else {
                    self.vmaf = self.vmaf - 1;
                    LadderStep::Retry { vmaf: self.vmaf }
                }
            },
        }
    }

    /// Whether another search may run.
    pub fn can_retry(&self) -> (r: bool)
        ensures
            r == (self.attempts < self.max_attempts),
    {
        self.attempts < self.max_attempts
    }
}

} // verus!

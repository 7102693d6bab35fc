//! Parsers for the line-oriented output of the external encode, measure and
//! probe tools, and the timecodes handed to them.
use vstd::prelude::*;
use crate::progress::FrameRate;
use crate::text::{
    copy_range, decimal, digit_end, digits_up_to, digits_value, find, first_occurrence, is_space,
    number_after, number_after_key, occurs, occurs_at, padded_decimal, parse_thousandths,
    push_padded, skip_digits, skip_spaces, space_end, thousandths_at,
};

verus! {

/// `frame=`
pub open spec fn frame_key() -> Seq<u8> {
    seq![102u8, 114, 97, 109, 101, 61]
}

/// `fps=`
pub open spec fn fps_key() -> Seq<u8> {
    seq![102u8, 112, 115, 61]
}

/// `n:`, which the frame-info filter prints once per frame.
pub open spec fn tick_key() -> Seq<u8> {
    seq![110u8, 58]
}

/// `VMAF score:`
pub open spec fn vmaf_key() -> Seq<u8> {
    seq![86u8, 77, 65, 70, 32, 115, 99, 111, 114, 101, 58]
}

/// `[out#0/`, which starts the encoder's closing size summary.
pub open spec fn summary_key() -> Seq<u8> {
    seq![91u8, 111, 117, 116, 35, 48, 47]
}

/// `video:`
pub open spec fn video_key() -> Seq<u8> {
    seq![118u8, 105, 100, 101, 111, 58]
}

/// `kB`
pub open spec fn kb_unit() -> Seq<u8> {
    seq![107u8, 66]
}

/// A number that fits in `u64`.
pub open spec fn as_u64(v: Option<nat>) -> Option<u64> {
    match v {
        Some(n) => if n <= u64::MAX {
            Some(n as u64)
        } else {
            None
        },
        None => None,
    }
}

/// Blanks inside a line: space, tab, carriage return.
pub open spec fn is_blank(b: u8) -> bool {
    b == 32 || b == 9 || b == 13
}

pub open spec fn blank_end(s: Seq<u8>, p: int) -> int
    decreases s.len() - p,
{
    if 0 <= p < s.len() && is_blank(s[p]) {
        blank_end(s, p + 1)
    } else {
        p
    }
}

/// The end of a decimal number (digits, then optionally a point and digits).
pub open spec fn number_end(s: Seq<u8>, p: int) -> int {
    let e = digit_end(s, p);
    if e < s.len() && s[e] == 46 {
        digit_end(s, e + 1)
    } else {
        e
    }
}

/// The score on the line of the first `VMAF score:`, in thousandths; the
/// rest of that line must be the number alone, blanks aside.
pub open spec fn vmaf_score_in(s: Seq<u8>) -> Option<int> {
    match first_occurrence(s, vmaf_key()) {
        Some(i) => {
            let p = blank_end(s, i + vmaf_key().len());
            let q = blank_end(s, number_end(s, p));
            if q == s.len() || s[q] == 10 {
                thousandths_at(s, p)
            } else {
                None
            }
        },
        None => None,
    }
}

/// `[out#0/null`, which starts the summary of a copy-only pass.
pub open spec fn copy_summary_key() -> Seq<u8> {
    seq![91u8, 111, 117, 116, 35, 48, 47, 110, 117, 108, 108]
}

/// ASCII word characters: digits, letters, underscore.
pub open spec fn is_word(b: u8) -> bool {
    (48 <= b <= 57) || (65 <= b <= 90) || (97 <= b <= 122) || b == 95
}

/// At `j`, not before `p`, stands a whole word `NkB`: digits preceded by a
/// non-word byte, then `kB`, then a non-word byte or the end.
pub open spec fn kb_token_at(s: Seq<u8>, p: int, j: int) -> bool {
    let e = digit_end(s, j);
    &&& 1 <= p <= j < s.len()
    &&& !is_word(s[j - 1])
    &&& e > j
    &&& occurs_at(s, kb_unit(), e)
    &&& (e + 2 == s.len() || !is_word(s[e + 2]))
}

/// The first whole-word `NkB` at or after `p`.
#[verifier::opaque]
pub open spec fn first_kb_token(s: Seq<u8>, p: int) -> Option<int> {
    if exists|j: int| kb_token_at(s, p, j) {
        Some(
            choose|j: int|
                kb_token_at(s, p, j) && forall|k: int| p <= k < j ==> !kb_token_at(s, p, k),
        )
    } else {
        None
    }
}

/// The size after the first `video:`: the number of the first whole-word
/// `NkB` after it, or zero when there is none; `None` without `video:`.
pub open spec fn video_size_in(s: Seq<u8>) -> Option<nat> {
    match first_occurrence(s, video_key()) {
        Some(i) => match first_kb_token(s, i + video_key().len()) {
            Some(j) => Some(digits_value(s.subrange(j, digit_end(s, j)))),
            None => Some(0),
        },
        None => None,
    }
}

/// The encoded size, in kilobytes, of an encoder summary line such as
/// `[out#0/nut @ 0x5] video:470kB audio:0kB`; `None` for other lines.
pub open spec fn encoded_size_in(s: Seq<u8>) -> Option<nat> {
    if first_occurrence(s, summary_key()) is Some {
        video_size_in(s)
    } else {
        None
    }
}

/// The size, in kilobytes, of a copy-only pass's summary line
/// (`[out#0/null @ 0x5] video:1200kB ...`); `None` for other lines.
pub open spec fn copy_size_in(s: Seq<u8>) -> Option<nat> {
    if first_occurrence(s, copy_summary_key()) is Some {
        video_size_in(s)
    } else {
        None
    }
}

/// A frame rate written `num/den`, optionally padded with whitespace.
pub open spec fn frame_rate_in(s: Seq<u8>) -> Option<FrameRate> {
    let a = space_end(s, 0);
    let e1 = digit_end(s, a);
    if e1 > a && e1 < s.len() && s[e1] == 47 {
        let e2 = digit_end(s, e1 + 1);
        let num = digits_value(s.subrange(a, e1));
        let den = digits_value(s.subrange(e1 + 1, e2));
        if e2 > e1 + 1 && space_end(s, e2) == s.len() && num <= u32::MAX && 1 <= den
            <= u32::MAX {
            Some(FrameRate { num: num as u32, den: den as u32 })
        } else {
            None
        }
    } else {
        None
    }
}

/// The end of the run of non-whitespace that starts at `p`.
pub open spec fn token_end(s: Seq<u8>, p: int) -> int
    decreases s.len() - p,
{
    if 0 <= p < s.len() && !is_space(s[p]) {
        token_end(s, p + 1)
    } else {
        p
    }
}

/// The second whitespace-separated word, as in `crf 21 VMAF 97.15 ...`.
pub open spec fn second_word(s: Seq<u8>) -> Option<Seq<u8>> {
    let a = space_end(s, 0);
    let b = token_end(s, a);
    let c = space_end(s, b);
    let d = token_end(s, c);
    if b > a && d > c {
        Some(s.subrange(c, d))
    } else {
        None
    }
}

/// `HH:MM:SS.mmm` for a time in milliseconds (hours take more digits when needed).
pub open spec fn timecode(ms: nat) -> Seq<u8> {
    padded_decimal(ms / 3600000, 2) + seq![58u8] + padded_decimal((ms / 60000) % 60, 2) + seq![
        58u8,
    ] + padded_decimal((ms / 1000) % 60, 2) + seq![46u8] + padded_decimal(ms % 1000, 3)
}

/// The frame number of an encoder status line (`frame=  240 fps= 31 ...`).
pub fn parse_frame(line: &[u8]) -> (r: Option<u64>)
    ensures
        r == as_u64(number_after_key(line@, frame_key())),
{
    let k = vec![102u8, 114, 97, 109, 101, 61];
    assert(k@ =~= frame_key());
    number_after(line, k.as_slice(), u64::MAX)
}

/// The whole frames per second of an encoder status line.
pub fn parse_fps(line: &[u8]) -> (r: Option<u64>)
    ensures
        r == as_u64(number_after_key(line@, fps_key())),
{
    let k = vec![102u8, 112, 115, 61];
    assert(k@ =~= fps_key());
    number_after(line, k.as_slice(), u64::MAX)
}

/// Whether a line of frame-info output reports one more encoded frame.
pub fn is_frame_tick(line: &[u8]) -> (r: bool)
    ensures
        r == first_occurrence(line@, tick_key()) is Some,
{
    let k = vec![110u8, 58];
    assert(k@ =~= tick_key());
    find(line, k.as_slice()).is_some()
}

fn skip_blanks(s: &[u8], p: usize) -> (r: usize)
    requires
        p <= s@.len(),
    ensures
        r as int == blank_end(s@, p as int),
        p <= r <= s@.len(),
{
    let mut k = p;
    while k < s.len() && (s[k] == 32 || s[k] == 9 || s[k] == 13)
        invariant
            p <= k <= s@.len(),
            blank_end(s@, p as int) == blank_end(s@, k as int),
        decreases s@.len() - k,
    {
        k = k + 1;
    }
    k
}

/// The VMAF score reported in a measurement's output, in thousandths.
pub fn parse_vmaf_score(output: &[u8]) -> (r: Option<u64>)
    ensures
        r matches Some(v) ==> vmaf_score_in(output@) == Some(v as int),
        r is None ==> vmaf_score_in(output@) is None,
{
    let k = vec![86u8, 77, 65, 70, 32, 115, 99, 111, 114, 101, 58];
    assert(k@ =~= vmaf_key());
    let i = match find(output, k.as_slice()) {
        Some(i) => i,
        None => {
            return None;
        },
    };
    let p = skip_blanks(output, i + k.len());
    let e = skip_digits(output, p);
    let ne = if e < output.len() && output[e] == 46 {
        skip_digits(output, e + 1)
    } else {
        e
    };
    let q = skip_blanks(output, ne);
    if q == output.len() || output[q] == 10 {
        parse_thousandths(output, p)
    } else {
        None
    }
}

fn word_byte(b: u8) -> (r: bool)
    ensures
        r == is_word(b),
{
    (48 <= b && b <= 57) || (65 <= b && b <= 90) || (97 <= b && b <= 122) || b == 95
}

proof fn lemma_first_kb_token(s: Seq<u8>, p: int, j: int)
    requires
        kb_token_at(s, p, j),
        forall|k: int| p <= k < j ==> !kb_token_at(s, p, k),
    ensures
        first_kb_token(s, p) == Some(j),
{
    reveal(first_kb_token);
    let k = choose|k: int| kb_token_at(s, p, k) && forall|t: int| p <= t < k ==> !kb_token_at(s, p, t);
    assert(!(k < j));
    assert(!(j < k));
}

/// The size after the first `video:` of a line (see `video_size_in`).
fn parse_video_size(line: &[u8]) -> (r: Option<u64>)
    ensures
        r == as_u64(video_size_in(line@)),
{
    let vk = vec![118u8, 105, 100, 101, 111, 58];
    let kb = vec![107u8, 66];
    assert(vk@ =~= video_key());
    assert(kb@ =~= kb_unit());
    let i = match find(line, vk.as_slice()) {
        Some(i) => i,
        None => {
            return None;
        },
    };
    let p = i + vk.len();
    let n = line.len();
    let mut j = p;
    while j < n
        invariant
            n == line@.len(),
            p == i + video_key().len(),
            first_occurrence(line@, video_key()) == Some(i as int),
            kb@ == kb_unit(),
            6 <= p <= j <= n,
            forall|k: int| p <= k < j ==> !kb_token_at(line@, p as int, k),
        decreases n - j,
    {
        if !word_byte(line[j - 1]) {
            let e = skip_digits(line, j);
            if e > j && occurs(line, kb.as_slice(), e) && (e + 2 == n || !word_byte(line[e + 2])) {
                proof {
                    lemma_first_kb_token(line@, p as int, j as int);
                }
                return digits_up_to(line, j, e, u64::MAX);
            }
        }
        j = j + 1;
    }
    proof {
        reveal(first_kb_token);
        assert forall|k: int| !kb_token_at(line@, p as int, k) by {
            if kb_token_at(line@, p as int, k) {
                assert(p <= k < j);
            }
        }
    }
    Some(0)
}

/// The encoded size in kilobytes from an encoder summary line.
pub fn parse_encoded_size(line: &[u8]) -> (r: Option<u64>)
    ensures
        r == as_u64(encoded_size_in(line@)),
{
    let sk = vec![91u8, 111, 117, 116, 35, 48, 47];
    assert(sk@ =~= summary_key());
    if find(line, sk.as_slice()).is_none() {
        return None;
    }
    parse_video_size(line)
}

/// The size in kilobytes from the summary line of a copy-only pass.
pub fn parse_copy_size(line: &[u8]) -> (r: Option<u64>)
    ensures
        r == as_u64(copy_size_in(line@)),
{
    let sk = vec![91u8, 111, 117, 116, 35, 48, 47, 110, 117, 108, 108];
    assert(sk@ =~= copy_summary_key());
    if find(line, sk.as_slice()).is_none() {
        return None;
    }
    parse_video_size(line)
}

/// Parses a frame rate such as `24000/1001`.
pub fn parse_frame_rate(s: &[u8]) -> (r: Option<FrameRate>)
    ensures
        r == frame_rate_in(s@),
{
    let a = skip_spaces(s, 0);
    let e1 = skip_digits(s, a);
    if !(e1 > a && e1 < s.len() && s[e1] == 47) {
        return None;
    }
    let e2 = skip_digits(s, e1 + 1);
    if !(e2 > e1 + 1 && skip_spaces(s, e2) == s.len()) {
        return None;
    }
    let num = digits_up_to(s, a, e1, u32::MAX as u64);
    let den = digits_up_to(s, e1 + 1, e2, u32::MAX as u64);
    match (num, den) {
        (Some(n), Some(d)) => {
            if d == 0 {
                None
            } else {
                Some(FrameRate { num: n as u32, den: d as u32 })
            }
        },
        _ => None,
    }
}

fn skip_token(s: &[u8], p: usize) -> (r: usize)
    requires
        p <= s@.len(),
    ensures
        r as int == token_end(s@, p as int),
        p <= r <= s@.len(),
{
    let mut k = p;
    while k < s.len() && !(s[k] == 32 || (9 <= s[k] && s[k] <= 13))
        invariant
            p <= k <= s@.len(),
            token_end(s@, p as int) == token_end(s@, k as int),
        decreases s@.len() - k,
    {
        k = k + 1;
    }
    k
}

/// The CRF that a whole-file quality search printed: the second word of its
/// result line (`crf 21 VMAF 97.15 ...`).
pub fn parse_search_crf(output: &[u8]) -> (r: Option<Vec<u8>>)
    ensures
        r matches Some(w) ==> second_word(output@) == Some(w@),
        r is None ==> second_word(output@) is None,
{
    let a = skip_spaces(output, 0);
    let b = skip_token(output, a);
    let c = skip_spaces(output, b);
    let d = skip_token(output, c);
    if !(b > a && d > c) {
        return None;
    }
    Some(copy_range(output, c, d))
}

/// Formats a time in milliseconds as `HH:MM:SS.mmm`.
pub fn format_timecode(ms: u64) -> (r: Vec<u8>)
    ensures
        r@ == timecode(ms as nat),
{
    let mut r: Vec<u8> = Vec::new();
    push_padded(&mut r, ms / 3600000, 2);
    r.push(58);
    push_padded(&mut r, (ms / 60000) % 60, 2);
    r.push(58);
    push_padded(&mut r, (ms / 1000) % 60, 2);
    r.push(46);
    push_padded(&mut r, ms % 1000, 3);
    assert(r@ =~= timecode(ms as nat));
    r
}

/// A CRF in thousandths written as a decimal with three places (`17.500`).
pub open spec fn crf_text(crf: int) -> Seq<u8> {
    let m = if crf < 0 {
        -crf
    } else {
        crf
    };
    let sign = if crf < 0 {
        seq![45u8]
    } else {
        Seq::<u8>::empty()
    };
    sign + decimal((m / 1000) as nat) + seq![46u8] + padded_decimal((m % 1000) as nat, 3)
}

pub fn format_crf(crf: i64) -> (r: Vec<u8>)
    ensures
        r@ == crf_text(crf as int),
{
    let mut r: Vec<u8> = Vec::new();
    let m: u64 = if crf < 0 {
        if crf == i64::MIN {
            9223372036854775808u64
        } else {
            (-crf) as u64
        }
    } else {
        crf as u64
    };
    if crf < 0 {
        r.push(45);
    }
    crate::text::push_decimal(&mut r, m / 1000);
    r.push(46);
    push_padded(&mut r, m % 1000, 3);
    assert(r@ =~= crf_text(crf as int));
    r
}

/// Follows one scene's encode through the encoder's output: frame ticks,
/// capped at the scene's frame count, and the encoded size once reported.
pub struct EncodeTracker {
    pub frames: u64,
    pub seen: u64,
    pub size_kb: u64,
}

impl EncodeTracker {
    pub fn new(frames: u64) -> (r: EncodeTracker)
        ensures
            r.frames == frames,
            r.seen == 0,
            r.size_kb == 0,
    {
        EncodeTracker { frames, seen: 0, size_kb: 0 }
    }

    /// Reads one output line; returns how many frames to add to the
    /// file-wide counter (one for a tick while the scene has frames left).
    pub fn on_line(&mut self, line: &[u8]) -> (added: u64)
        ensures
            final(self).frames == old(self).frames,
            ({
                let tick = first_occurrence(line@, tick_key()) is Some && old(self).seen < old(
                    self,
                ).frames;
                &&& added == (if tick {
                    1u64
                } else {
                    0u64
                })
                &&& final(self).seen == old(self).seen + added
            }),
            final(self).size_kb == (match as_u64(encoded_size_in(line@)) {
                Some(v) => if v > 0 {
                    v
                } else {
                    old(self).size_kb
                },
                None => old(self).size_kb,
            }),
    {
        let mut added: u64 = 0;
        if is_frame_tick(line) && self.seen < self.frames {
            self.seen = self.seen + 1;
            added = 1;
        }
        if let Some(v) = parse_encoded_size(line) {
            if v > 0 {
                self.size_kb = v;
            }
        }
        added
    }
}

/// A probe value alone on its output: a decimal number, optionally padded
/// with whitespace, in thousandths.
pub open spec fn plain_decimal(s: Seq<u8>) -> Option<int> {
    let a = space_end(s, 0);
    let e = number_end(s, a);
    if digit_end(s, a) > a && space_end(s, e) == s.len() {
        thousandths_at(s, a)
    } else {
        None
    }
}

/// Parses a probe value such as a duration (`123.456000`) into thousandths.
pub fn parse_plain_decimal(s: &[u8]) -> (r: Option<u64>)
    ensures
        r matches Some(v) ==> plain_decimal(s@) == Some(v as int),
        r is None ==> plain_decimal(s@) is None,
{
    let a = skip_spaces(s, 0);
    let d = skip_digits(s, a);
    let e = if d < s.len() && s[d] == 46 {
        skip_digits(s, d + 1)
    } else {
        d
    };
    if d > a && skip_spaces(s, e) == s.len() {
        parse_thousandths(s, a)
    } else {
        None
    }
}

/// A probe value that is a whole number, optionally padded with whitespace.
pub open spec fn plain_count(s: Seq<u8>) -> Option<nat> {
    let a = space_end(s, 0);
    let e = digit_end(s, a);
    if e > a && space_end(s, e) == s.len() {
        Some(digits_value(s.subrange(a, e)))
    } else {
        None
    }
}

/// Parses a whole-number probe value such as a frame count or a byte size.
pub fn parse_plain_count(s: &[u8]) -> (r: Option<u64>)
    ensures
        r == as_u64(plain_count(s@)),
{
    let a = skip_spaces(s, 0);
    let e = skip_digits(s, a);
    if e > a && skip_spaces(s, e) == s.len() {
        digits_up_to(s, a, e, u64::MAX)
    } else {
        None
    }
}

/// One stream's metadata mapping: `-map_metadata:s:K:I 0:s:K:I ` for stream
/// kind `K` (`a` audio, `s` subtitles) and index `I`.
pub open spec fn metadata_mapping(kind: u8, i: nat) -> Seq<u8> {
    seq![45u8, 109, 97, 112, 95, 109, 101, 116, 97, 100, 97, 116, 97, 58, 115, 58, kind, 58]
        + decimal(i) + seq![32u8, 48, 58, 115, 58, kind, 58] + decimal(i) + seq![32u8]
}

pub open spec fn metadata_mappings(kind: u8, n: nat) -> Seq<u8>
    decreases n,
{
    if n == 0 {
        Seq::empty()
    } else {
        metadata_mappings(kind, (n - 1) as nat) + metadata_mapping(kind, (n - 1) as nat)
    }
}

/// Arguments that carry the metadata of `count` streams of one kind over to
/// the output.
pub fn map_metadata_arguments(kind: u8, count: u64) -> (r: Vec<u8>)
    ensures
        r@ == metadata_mappings(kind, count as nat),
{
    let mut r: Vec<u8> = Vec::new();
    let mut i: u64 = 0;
    while i < count
        invariant
            i <= count,
            r@ == metadata_mappings(kind, i as nat),
        decreases count - i,
    {
        let ghost before = r@;
        let mut head = vec![45u8, 109, 97, 112, 95, 109, 101, 116, 97, 100, 97, 116, 97, 58, 115, 58, kind, 58];
        r.append(&mut head);
        crate::text::push_decimal(&mut r, i);
        let mut mid = vec![32u8, 48, 58, 115, 58, kind, 58];
        r.append(&mut mid);
        crate::text::push_decimal(&mut r, i);
        r.push(32);
        assert(r@ =~= before + metadata_mapping(kind, i as nat));
        i = i + 1;
    }
    r
}

} // verus!

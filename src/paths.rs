//! File names: the name, stem and extension of a path, which files count as
//! video, and the names of the files a run writes.
use vstd::prelude::*;
use crate::text::{copy_range, decimal, push_decimal, same_bytes};

verus! {

pub open spec fn is_separator(b: u8) -> bool {
    b == 47 || b == 92
}

/// Where the last component of a path starts: after the last `/` or `\`.
pub open spec fn name_start(s: Seq<u8>) -> int
    decreases s.len(),
{
    if s.len() == 0 {
        0
    } else if is_separator(s.last()) {
        s.len() as int
    } else {
        name_start(s.drop_last())
    }
}

pub open spec fn file_name_of(s: Seq<u8>) -> Seq<u8> {
    s.subrange(name_start(s), s.len() as int)
}

/// The position of the last `.` in `n`, if any.
pub open spec fn last_dot(n: Seq<u8>) -> Option<int>
    decreases n.len(),
{
    if n.len() == 0 {
        None
    } else if n.last() == 46 {
        Some(n.len() - 1)
    } else {
        last_dot(n.drop_last())
    }
}

/// The stem and extension of a file name: split at the last dot, unless the
/// name is `..` or its only dot leads the name.
pub open spec fn split_name(n: Seq<u8>) -> (Seq<u8>, Option<Seq<u8>>) {
    if n == seq![46u8, 46] {
        (n, None)
    } else {
        match last_dot(n) {
            Some(d) => if d == 0 {
                (n, None)
            } else {
                (n.subrange(0, d), Some(n.subrange(d + 1, n.len() as int)))
            },
            None => (n, None),
        }
    }
}

fn append_slice(out: &mut Vec<u8>, s: &[u8])
    ensures
        final(out)@ == old(out)@ + s@,
{
    let mut k: usize = 0;
    let ghost start = out@;
    while k < s.len()
        invariant
            k <= s@.len(),
            out@ == start + s@.subrange(0, k as int),
        decreases s@.len() - k,
    {
        out.push(s[k]);
        k = k + 1;
        assert(out@ =~= start + s@.subrange(0, k as int));
    }
    assert(s@.subrange(0, k as int) =~= s@);
}

/// The last component of a path.
pub fn file_name(path: &[u8]) -> (r: Vec<u8>)
    ensures
        r@ == file_name_of(path@),
{
    let mut i = path.len();
    assert(path@.subrange(0, i as int) =~= path@);
    while i > 0 && !(path[i - 1] == 47 || path[i - 1] == 92)
        invariant
            i <= path@.len(),
            name_start(path@) == name_start(path@.subrange(0, i as int)),
        decreases i,
    {
        assert(path@.subrange(0, i as int).drop_last() =~= path@.subrange(0, i - 1));
        i = i - 1;
    }
    proof {
        if i > 0 {
            assert(path@.subrange(0, i as int).last() == path@[i - 1]);
        }
    }
    copy_range(path, i, path.len())
}

/// The stem and extension of a file name.
pub fn split_file_name(n: &[u8]) -> (r: (Vec<u8>, Option<Vec<u8>>))
    ensures
        r.0@ == split_name(n@).0,
        match (r.1, split_name(n@).1) {
            (Some(e), Some(x)) => e@ == x,
            (None, None) => true,
            _ => false,
        },
{
    if n.len() == 2 && n[0] == 46 && n[1] == 46 {
        assert(n@ =~= seq![46u8, 46]);
        return (copy_range(n, 0, 2), None);
    }
    proof {
        if n@ == seq![46u8, 46] {
            assert(n@.len() == 2 && n@[0] == 46 && n@[1] == 46);
        }
    }
    let mut i = n.len();
    assert(n@.subrange(0, i as int) =~= n@);
    while i > 0 && n[i - 1] != 46
        invariant
            i <= n@.len(),
            last_dot(n@) == last_dot(n@.subrange(0, i as int)),
        decreases i,
    {
        assert(n@.subrange(0, i as int).drop_last() =~= n@.subrange(0, i - 1));
        i = i - 1;
    }
    if i == 0 {
        assert(n@.subrange(0, 0) =~= Seq::<u8>::empty());
        return (copy_range(n, 0, n.len()), None);
    }
    assert(n@.subrange(0, i as int).last() == n@[i - 1]);
    let d = i - 1;
    if d == 0 {
        return (copy_range(n, 0, n.len()), None);
    }
    (copy_range(n, 0, d), Some(copy_range(n, d + 1, n.len())))
}

/// Extensions of the files the catalog treats as video.
pub open spec fn video_extensions() -> Seq<Seq<u8>> {
    seq![
        seq![109u8, 107, 118],
        seq![97u8, 118, 105],
        seq![109u8, 112, 52],
        seq![100u8, 105, 118, 120],
        seq![102u8, 108, 118],
        seq![109u8, 52, 118],
        seq![109u8, 111, 118],
        seq![111u8, 103, 118],
        seq![116u8, 115],
        seq![119u8, 101, 98, 109],
        seq![119u8, 109, 118],
    ]
}

pub open spec fn is_video_name(path: Seq<u8>) -> bool {
    match split_name(file_name_of(path)).1 {
        Some(x) => video_extensions().contains(x),
        None => false,
    }
}

fn video_extension_list() -> (r: Vec<Vec<u8>>)
    ensures
        r@.len() == video_extensions().len(),
        forall|i: int| 0 <= i < r@.len() ==> (#[trigger] r@[i])@ == video_extensions()[i],
{
    let r = vec![
        vec![109u8, 107, 118],
        vec![97u8, 118, 105],
        vec![109u8, 112, 52],
        vec![100u8, 105, 118, 120],
        vec![102u8, 108, 118],
        vec![109u8, 52, 118],
        vec![109u8, 111, 118],
        vec![111u8, 103, 118],
        vec![116u8, 115],
        vec![119u8, 101, 98, 109],
        vec![119u8, 109, 118],
    ];
    assert(r@[0]@ =~= video_extensions()[0]);
    assert(r@[1]@ =~= video_extensions()[1]);
    assert(r@[2]@ =~= video_extensions()[2]);
    assert(r@[3]@ =~= video_extensions()[3]);
    assert(r@[4]@ =~= video_extensions()[4]);
    assert(r@[5]@ =~= video_extensions()[5]);
    assert(r@[6]@ =~= video_extensions()[6]);
    assert(r@[7]@ =~= video_extensions()[7]);
    assert(r@[8]@ =~= video_extensions()[8]);
    assert(r@[9]@ =~= video_extensions()[9]);
    assert(r@[10]@ =~= video_extensions()[10]);
    r
}

/// Whether a path names a video file, judged by its extension.
pub fn is_video_file(path: &[u8]) -> (r: bool)
    ensures
        r == is_video_name(path@),
{
    let name = file_name(path);
    let parts = split_file_name(name.as_slice());
    let ext = parts.1;
    match ext {
        None => false,
        Some(x) => {
            assert(split_name(file_name_of(path@)).1 == Some(x@));
            let list = video_extension_list();
            let mut i: usize = 0;
            while i < list.len()
                invariant
                    split_name(file_name_of(path@)).1 == Some(x@),
                    i <= list@.len(),
                    list@.len() == video_extensions().len(),
                    forall|k: int| 0 <= k < list@.len() ==> (#[trigger] list@[k])@ == video_extensions()[k],
                    forall|k: int| 0 <= k < i ==> video_extensions()[k] != x@,
                decreases list@.len() - i,
            {
                if same_bytes(list[i].as_slice(), x.as_slice()) {
                    assert(video_extensions()[i as int] == x@);
                    assert(video_extensions().contains(x@));
                    return true;
                }
                i = i + 1;
            }
            assert(!video_extensions().contains(x@));
            false
        },
    }
}

pub open spec fn trim_start(s: Seq<u8>) -> Seq<u8>
    decreases s.len(),
{
    if s.len() > 0 && crate::text::is_space(s[0]) {
        trim_start(s.subrange(1, s.len() as int))
    } else {
        s
    }
}

pub open spec fn trim_end(s: Seq<u8>) -> Seq<u8>
    decreases s.len(),
{
    if s.len() > 0 && crate::text::is_space(s.last()) {
        trim_end(s.drop_last())
    } else {
        s
    }
}

/// `s` without leading and trailing ASCII whitespace.
pub open spec fn trimmed(s: Seq<u8>) -> Seq<u8> {
    trim_end(trim_start(s))
}

pub fn trim(s: &[u8]) -> (r: Vec<u8>)
    ensures
        r@ == trimmed(s@),
{
    let mut a: usize = 0;
    assert(s@.subrange(0, s@.len() as int) =~= s@);
    while a < s.len() && (s[a] == 32 || (9 <= s[a] && s[a] <= 13))
        invariant
            a <= s@.len(),
            trim_start(s@) == trim_start(s@.subrange(a as int, s@.len() as int)),
        decreases s@.len() - a,
    {
        assert(s@.subrange(a as int, s@.len() as int).subrange(1, s@.len() - a) =~= s@.subrange(
            a + 1,
            s@.len() as int,
        ));
        a = a + 1;
    }
    let ghost front = s@.subrange(a as int, s@.len() as int);
    assert(trim_start(s@) == front);
    let mut b: usize = s.len();
    while b > a && (s[b - 1] == 32 || (9 <= s[b - 1] && s[b - 1] <= 13))
        invariant
            a <= b <= s@.len(),
            front == s@.subrange(a as int, s@.len() as int),
            trim_end(front) == trim_end(s@.subrange(a as int, b as int)),
        decreases b,
    {
        assert(s@.subrange(a as int, b as int).drop_last() =~= s@.subrange(a as int, b - 1));
        b = b - 1;
    }
    proof {
        let t = s@.subrange(a as int, b as int);
        if t.len() > 0 {
            assert(t.last() == s@[b - 1]);
        }
    }
    copy_range(s, a, b)
}

/// Name of a transcoded file:
/// `{folder}\\{stem}.{encoder}.vmaf{vmaf}.crf{crf}.{ext}` (folder and name
/// joined by a backslash), the CRF trimmed;
/// `None` when the input's file name has no extension.
pub open spec fn output_name(
    file: Seq<u8>,
    encoder: Seq<u8>,
    vmaf: nat,
    crf: Seq<u8>,
    folder: Seq<u8>,
) -> Option<Seq<u8>> {
    let (stem, ext) = split_name(file_name_of(file));
    match ext {
        Some(x) => Some(
            folder + seq![92u8] + stem + seq![46u8] + encoder + seq![46u8, 118, 109, 97, 102]
                + decimal(vmaf) + seq![46u8, 99, 114, 102] + trimmed(crf) + seq![46u8] + x,
        ),
        None => None,
    }
}

pub fn set_output_folder_filename(
    file: &[u8],
    encoder: &[u8],
    final_vmaf: u32,
    target_crf: &[u8],
    output_folder: &[u8],
) -> (r: Option<Vec<u8>>)
    ensures
        match (r, output_name(file@, encoder@, final_vmaf as nat, target_crf@, output_folder@)) {
            (Some(a), Some(b)) => a@ == b,
            (None, None) => true,
            _ => false,
        },
{
    let name = file_name(file);
    let (stem, ext) = split_file_name(name.as_slice());
    let x = match ext {
        Some(x) => x,
        None => {
            return None;
        },
    };
    let mut r: Vec<u8> = Vec::new();
    append_slice(&mut r, output_folder);
    r.push(92);
    append_slice(&mut r, stem.as_slice());
    r.push(46);
    append_slice(&mut r, encoder);
    let mut v = vec![46u8, 118, 109, 97, 102];
    r.append(&mut v);
    push_decimal(&mut r, final_vmaf as u64);
    let mut c = vec![46u8, 99, 114, 102];
    r.append(&mut c);
    let t = trim(target_crf);
    append_slice(&mut r, t.as_slice());
    r.push(46);
    append_slice(&mut r, x.as_slice());
    proof {
        let (st, ex) = split_name(file_name_of(file@));
        assert(r@ =~= output_folder@ + seq![92u8] + st + seq![46u8] + encoder@ + seq![
            46u8,
            118,
            109,
            97,
            102,
        ] + decimal(final_vmaf as nat) + seq![46u8, 99, 114, 102] + trimmed(target_crf@)
            + seq![46u8] + ex.unwrap());
    }
    Some(r)
}

/// Name of a file whose audio alone is transcoded: `{folder}\\{stem}.{ext}`;
/// `None` when the input's file name has no extension.
pub open spec fn audio_output_name(file: Seq<u8>, folder: Seq<u8>) -> Option<Seq<u8>> {
    let (stem, ext) = split_name(file_name_of(file));
    match ext {
        Some(x) => Some(folder + seq![92u8] + stem + seq![46u8] + x),
        None => None,
    }
}

pub fn set_output_folder_filename_audio(file: &[u8], output_folder: &[u8]) -> (r: Option<
    Vec<u8>,
>)
    ensures
        match (r, audio_output_name(file@, output_folder@)) {
            (Some(a), Some(b)) => a@ == b,
            (None, None) => true,
            _ => false,
        },
{
    let name = file_name(file);
    let (stem, ext) = split_file_name(name.as_slice());
    let x = match ext {
        Some(x) => x,
        None => {
            return None;
        },
    };
    let mut r: Vec<u8> = Vec::new();
    append_slice(&mut r, output_folder);
    r.push(92);
    append_slice(&mut r, stem.as_slice());
    r.push(46);
    append_slice(&mut r, x.as_slice());
    proof {
        let (st, ex) = split_name(file_name_of(file@));
        assert(r@ =~= output_folder@ + seq![92u8] + st + seq![46u8] + ex.unwrap());
    }
    Some(r)
}

/// Why an input path was refused.
#[derive(Clone, Copy, Debug, PartialEq, Eq)]
pub enum InputError {
    NotFound,
    /// Not a directory and not an `mp4`, `mkv` or `avi` file.
    UnsupportedFormat,
}

/// The position of the first `"` in `s`, if any.
pub open spec fn first_quote(s: Seq<u8>) -> Option<int>
    decreases s.len(),
{
    if s.len() == 0 {
        None
    } else {
        match first_quote(s.drop_last()) {
            Some(i) => Some(i),
            None => if s.last() == 34 {
                Some(s.len() - 1)
            } else {
                None
            },
        }
    }
}

pub open spec fn input_accepted_ext(x: Seq<u8>) -> bool {
    x == seq![109u8, 112, 52] || x == seq![109u8, 107, 118] || x == seq![97u8, 118, 105]
}

/// What a given input path stands for: a path pasted with a stray quote is
/// cut at the quote; directories are accepted; files must exist and be
/// `mp4`, `mkv` or `avi`. `is_dir` and `exists` describe the path on disk.
pub open spec fn input_verdict(s: Seq<u8>, is_dir: bool, exists: bool) -> Result<Seq<u8>, InputError> {
    match first_quote(s) {
        Some(q) => Ok(s.subrange(0, q)),
        None => if is_dir {
            Ok(s)
        } else if !exists {
            Err(InputError::NotFound)
        } else {
            match split_name(file_name_of(s)).1 {
                Some(x) => if input_accepted_ext(x) {
                    Ok(s)
                } else {
                    Err(InputError::UnsupportedFormat)
                },
                None => Err(InputError::UnsupportedFormat),
            }
        },
    }
}

pub fn classify_input(s: &[u8], is_dir: bool, exists: bool) -> (r: Result<Vec<u8>, InputError>)
    ensures
        match (r, input_verdict(s@, is_dir, exists)) {
            (Ok(a), Ok(b)) => a@ == b,
            (Err(a), Err(b)) => a == b,
            _ => false,
        },
{
    let mut q: usize = 0;
    while q < s.len() && s[q] != 34
        invariant
            q <= s@.len(),
            first_quote(s@.subrange(0, q as int)) is None,
        decreases s@.len() - q,
    {
        assert(s@.subrange(0, q + 1).drop_last() =~= s@.subrange(0, q as int));
        q = q + 1;
    }
    proof {
        lemma_first_quote_prefix(s@, q as int);
    }
    if q < s.len() {
        return Ok(copy_range(s, 0, q));
    }
    if is_dir {
        return Ok(copy_range(s, 0, s.len()));
    }
    if !exists {
        return Err(InputError::NotFound);
    }
    let name = file_name(s);
    let parts = split_file_name(name.as_slice());
    match parts.1 {
        None => Err(InputError::UnsupportedFormat),
        Some(x) => {
            let mp4 = vec![109u8, 112, 52];
            let mkv = vec![109u8, 107, 118];
            let avi = vec![97u8, 118, 105];
            assert(mp4@ =~= seq![109u8, 112, 52]);
            assert(mkv@ =~= seq![109u8, 107, 118]);
            assert(avi@ =~= seq![97u8, 118, 105]);
            if same_bytes(x.as_slice(), mp4.as_slice()) || same_bytes(x.as_slice(), mkv.as_slice())
                || same_bytes(x.as_slice(), avi.as_slice()) {
                Ok(copy_range(s, 0, s.len()))
            } else {
                Err(InputError::UnsupportedFormat)
            }
        },
    }
}

proof fn lemma_first_quote_prefix(s: Seq<u8>, q: int)
    requires
        0 <= q <= s.len(),
        first_quote(s.subrange(0, q)) is None,
        q < s.len() ==> s[q] == 34,
    ensures
        q < s.len() ==> first_quote(s) == Some(q),
        q == s.len() ==> first_quote(s) is None,
    decreases s.len() - q,
{
    if q == s.len() {
        assert(s.subrange(0, q) =~= s);
    } else {
        assert(s.subrange(0, q + 1).drop_last() =~= s.subrange(0, q));
        lemma_first_quote_tail(s, q + 1, q);
    }
}

proof fn lemma_first_quote_tail(s: Seq<u8>, k: int, q: int)
    requires
        0 <= q < k <= s.len(),
        first_quote(s.subrange(0, k)) == Some(q),
    ensures
        first_quote(s) == Some(q),
    decreases s.len() - k,
{
    if k == s.len() {
        assert(s.subrange(0, k) =~= s);
    } else {
        assert(s.subrange(0, k + 1).drop_last() =~= s.subrange(0, k));
        lemma_first_quote_tail(s, k + 1, q);
    }
}

/// The part of a file name before its first dot.
pub open spec fn before_first_dot(n: Seq<u8>) -> Seq<u8>
    decreases n.len(),
{
    if n.len() == 0 {
        n
    } else if before_first_dot(n.drop_last()).len() < n.len() - 1 {
        before_first_dot(n.drop_last())
    } else if n.last() == 46 {
        n.drop_last()
    } else {
        n
    }
}

/// Name of the assembled file of a chunked run:
/// `{name}.{encoder}.vmaf{vmaf}.{pool}.subsample{n}.{ext}`, where `name` is
/// the input's file name up to its first dot; `None` without an extension.
pub open spec fn chunked_name(
    file: Seq<u8>,
    encoder: Seq<u8>,
    vmaf: nat,
    pool: Seq<u8>,
    subsample: nat,
) -> Option<Seq<u8>> {
    let n = file_name_of(file);
    match split_name(n).1 {
        Some(x) => Some(
            before_first_dot(n) + seq![46u8] + encoder + seq![46u8, 118, 109, 97, 102] + decimal(
                vmaf,
            ) + seq![46u8] + pool + seq![46u8, 115, 117, 98, 115, 97, 109, 112, 108, 101]
                + decimal(subsample) + seq![46u8] + x,
        ),
        None => None,
    }
}

pub fn chunked_output_name(
    file: &[u8],
    encoder: &[u8],
    vmaf: u32,
    pool: &[u8],
    subsample: u64,
) -> (r: Option<Vec<u8>>)
    ensures
        match (r, chunked_name(file@, encoder@, vmaf as nat, pool@, subsample as nat)) {
            (Some(a), Some(b)) => a@ == b,
            (None, None) => true,
            _ => false,
        },
{
    let name = file_name(file);
    let parts = split_file_name(name.as_slice());
    let x = match parts.1 {
        Some(x) => x,
        None => {
            return None;
        },
    };
    let mut k: usize = 0;
    while k < name.len() && name[k] != 46
        invariant
            k <= name@.len(),
            before_first_dot(name@.subrange(0, k as int)) == name@.subrange(0, k as int),
            forall|t: int| 0 <= t < k ==> name@[t] != 46,
        decreases name@.len() - k,
    {
        assert(name@.subrange(0, k + 1).drop_last() =~= name@.subrange(0, k as int));
        k = k + 1;
    }
    proof {
        lemma_before_first_dot(name@, k as int);
    }
    let mut r = copy_range(name.as_slice(), 0, k);
    r.push(46);
    append_slice(&mut r, encoder);
    let mut v = vec![46u8, 118, 109, 97, 102];
    r.append(&mut v);
    push_decimal(&mut r, vmaf as u64);
    r.push(46);
    append_slice(&mut r, pool);
    let mut sub = vec![46u8, 115, 117, 98, 115, 97, 109, 112, 108, 101];
    r.append(&mut sub);
    push_decimal(&mut r, subsample);
    r.push(46);
    append_slice(&mut r, x.as_slice());
    proof {
        let n = file_name_of(file@);
        assert(r@ =~= before_first_dot(n) + seq![46u8] + encoder@ + seq![46u8, 118, 109, 97, 102]
            + decimal(vmaf as nat) + seq![46u8] + pool@ + seq![
            46u8,
            115,
            117,
            98,
            115,
            97,
            109,
            112,
            108,
            101,
        ] + decimal(subsample as nat) + seq![46u8] + split_name(n).1.unwrap());
    }
    Some(r)
}

proof fn lemma_before_first_dot(n: Seq<u8>, k: int)
    requires
        0 <= k <= n.len(),
        before_first_dot(n.subrange(0, k)) == n.subrange(0, k),
        forall|t: int| 0 <= t < k ==> n[t] != 46,
        k < n.len() ==> n[k] == 46,
    ensures
        before_first_dot(n) == n.subrange(0, k),
    decreases n.len() - k,
{
    if k == n.len() {
        assert(n.subrange(0, k) =~= n);
    } else {
        assert(n.subrange(0, k + 1).drop_last() =~= n.subrange(0, k));
        assert(before_first_dot(n.subrange(0, k + 1)) == n.subrange(0, k));
        lemma_before_first_dot_tail(n, k + 1, k);
    }
}

proof fn lemma_before_first_dot_tail(n: Seq<u8>, j: int, k: int)
    requires
        0 <= k < j <= n.len(),
        before_first_dot(n.subrange(0, j)) == n.subrange(0, k),
    ensures
        before_first_dot(n) == n.subrange(0, k),
    decreases n.len() - j,
{
    if j == n.len() {
        assert(n.subrange(0, j) =~= n);
    } else {
        assert(n.subrange(0, j + 1).drop_last() =~= n.subrange(0, j));
        lemma_before_first_dot_tail(n, j + 1, k);
    }
}

} // verus!

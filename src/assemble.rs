//! Final assembly: the completed scene artifacts are concatenated in index
//! order and remuxed with the side container of non-video streams. Assembly
//! fails closed when any scene is missing, and intermediates are removed only
//! after the remux succeeded.
use vstd::prelude::*;
use crate::checkpoint::Checkpoint;
use crate::text::{padded_decimal, push_padded};

verus! {

/// Why assembly cannot start.
#[derive(Clone, Copy, Debug, PartialEq, Eq)]
pub enum AssemblyError {
    /// The scene with this index has no completed artifact.
    Incomplete { missing: usize },
}

/// `scene_`
pub open spec fn artifact_prefix() -> Seq<u8> {
    seq![115u8, 99, 101, 110, 101, 95]
}

/// `_encoded.mkv`
pub open spec fn artifact_suffix() -> Seq<u8> {
    seq![95u8, 101, 110, 99, 111, 100, 101, 100, 46, 109, 107, 118]
}

/// The artifact of scene `i`: `scene_007_encoded.mkv`.
pub open spec fn artifact_name(i: nat) -> Seq<u8> {
    artifact_prefix() + padded_decimal(i, 3) + artifact_suffix()
}

/// One line of the concatenation list: `file 'scene_007_encoded.mkv'` and a line feed.
pub open spec fn concat_line(i: nat) -> Seq<u8> {
    seq![102u8, 105, 108, 101, 32, 39] + artifact_name(i) + seq![39u8, 10]
}

/// The concatenation list for scenes `0..n`, in index order.
pub open spec fn concat_list(n: nat) -> Seq<u8>
    decreases n,
{
    if n == 0 {
        Seq::empty()
    } else {
        concat_list((n - 1) as nat) + concat_line((n - 1) as nat)
    }
}

/// What assembling `scene_count` scenes involves.
pub struct AssemblyPlan {
    pub scene_count: usize,
    /// Text of the concatenation list.
    pub concat_list: Vec<u8>,
    /// The artifacts, in index order; removed once the remux succeeded.
    pub artifacts: Vec<Vec<u8>>,
}

pub fn artifact_file_name(i: usize) -> (r: Vec<u8>)
    ensures
        r@ == artifact_name(i as nat),
{
    let mut r = vec![115u8, 99, 101, 110, 101, 95];
    push_padded(&mut r, i as u64, 3);
    let mut tail = vec![95u8, 101, 110, 99, 111, 100, 101, 100, 46, 109, 107, 118];
    r.append(&mut tail);
    assert(r@ =~= artifact_name(i as nat));
    r
}

/// The first scene index below `scene_count` that is not complete, if any.
pub fn first_missing(scene_count: usize, checkpoint: &Checkpoint) -> (r: Option<usize>)
    ensures
        r matches Some(m) ==> m < scene_count && !checkpoint.completed().contains(m) && forall|
            k: usize,
        | k < m ==> checkpoint.completed().contains(k),
        r is None ==> forall|k: usize| k < scene_count ==> checkpoint.completed().contains(k),
{
    let mut i: usize = 0;
    while i < scene_count
        invariant
            i <= scene_count,
            forall|k: usize| k < i ==> checkpoint.completed().contains(k),
        decreases scene_count - i,
    {
        if !checkpoint.is_done(i) {
            return Some(i);
        }
        i = i + 1;
    }
    None
}

/// Plans assembly of scenes `0..scene_count`. Fails with the lowest missing
/// index unless every one of them is complete.
pub fn plan_assembly(scene_count: usize, checkpoint: &Checkpoint) -> (r: Result<
    AssemblyPlan,
    AssemblyError,
>)
    ensures
        r is Ok <==> forall|k: usize| k < scene_count ==> checkpoint.completed().contains(k),
        r matches Err(AssemblyError::Incomplete { missing }) ==> missing < scene_count
            && !checkpoint.completed().contains(missing) && forall|k: usize|
            k < missing ==> checkpoint.completed().contains(k),
        r matches Ok(p) ==> {
            &&& p.scene_count == scene_count
            &&& p.concat_list@ == concat_list(scene_count as nat)
            &&& p.artifacts@.len() == scene_count
            &&& forall|k: int| 0 <= k < scene_count ==> (#[trigger] p.artifacts@[k])@ == artifact_name(k as nat)
        },
{
    if let Some(m) = first_missing(scene_count, checkpoint) {
        return Err(AssemblyError::Incomplete { missing: m });
    }
    let mut list: Vec<u8> = Vec::new();
    let mut artifacts: Vec<Vec<u8>> = Vec::new();
    let mut i: usize = 0;
    while i < scene_count
        invariant
            i <= scene_count,
            list@ == concat_list(i as nat),
            artifacts@.len() == i,
            forall|k: int| 0 <= k < i ==> (#[trigger] artifacts@[k])@ == artifact_name(k as nat),
        decreases scene_count - i,
    {
        let name = artifact_file_name(i);
        let mut line = vec![102u8, 105, 108, 101, 32, 39];
        let mut copy = name.clone();
        assert(copy@ == name@);
        line.append(&mut copy);
        line.push(39);
        line.push(10);
        assert(line@ =~= concat_line(i as nat));
        let ghost before = list@;
        list.append(&mut line);
        assert(list@ =~= concat_list((i + 1) as nat));
        artifacts.push(name);
        i = i + 1;
    }
    Ok(AssemblyPlan { scene_count, concat_list: list, artifacts })
}

/// Closes an assembly attempt. After a successful remux the checkpoint is
/// cleared and the artifacts are returned for removal; after a failure
/// nothing is to be removed and the checkpoint is kept.
pub fn conclude_assembly(checkpoint: &mut Checkpoint, plan: AssemblyPlan, remux_succeeded: bool) -> (r: Vec<Vec<u8>>)
    requires
        old(checkpoint).wf(),
    ensures
        final(checkpoint).wf(),
        remux_succeeded ==> r@ == plan.artifacts@ && final(checkpoint).completed().len() == 0
            && final(checkpoint).ledger().len() == 0,
        !remux_succeeded ==> r@.len() == 0 && *final(checkpoint) == *old(checkpoint),
{
    if remux_succeeded {
        checkpoint.clear();
        plan.artifacts
    } else {
        Vec::new()
    }
}

} // verus!

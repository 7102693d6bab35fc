//! Dispatch of scenes to a bounded set of workers: the order in which scenes
//! are handed out, and the ledger of which worker holds which scene.
use vstd::prelude::*;
use crate::checkpoint::{indices_of, pending_of, Checkpoint};
use crate::segment::Scene;

verus! {

broadcast use vstd::seq_lib::group_to_multiset_ensures;

pub open spec fn length_of(s: Scene) -> int {
    s.end_ms - s.start_ms
}

/// Dispatch order: shorter scenes first; among equally long scenes, the
/// higher index first.
pub open spec fn runs_before(a: Scene, b: Scene) -> bool {
    length_of(a) < length_of(b) || (length_of(a) == length_of(b) && a.index > b.index)
}

pub open spec fn in_dispatch_order(s: Seq<Scene>) -> bool {
    forall|i: int, j: int| 0 <= i < j < s.len() ==> !runs_before(#[trigger] s[j], #[trigger] s[i])
}

fn runs_first(a: &Scene, b: &Scene) -> (r: bool)
    ensures
        r == runs_before(*a, *b),
{
    let la: u128 = a.end_ms as u128 + b.start_ms as u128;
    let lb: u128 = b.end_ms as u128 + a.start_ms as u128;
    la < lb || (la == lb && a.index > b.index)
}

/// The scenes in dispatch order: the same scenes, shortest first.
pub fn dispatch_order(scenes: &Vec<Scene>) -> (r: Vec<Scene>)
    ensures
        r@.to_multiset() == scenes@.to_multiset(),
        in_dispatch_order(r@),
{
    let mut r: Vec<Scene> = Vec::new();
    let mut i: usize = 0;
    while i < scenes.len()
        invariant
            i <= scenes@.len(),
            r@.to_multiset() == scenes@.subrange(0, i as int).to_multiset(),
            in_dispatch_order(r@),
        decreases scenes@.len() - i,
    {
        let x = scenes[i];
        let mut pos: usize = 0;
        while pos < r.len() && !runs_first(&x, &r[pos])
            invariant
                pos <= r@.len(),
                forall|k: int| 0 <= k < pos ==> !runs_before(x, #[trigger] r@[k]),
            decreases r@.len() - pos,
        {
            pos = pos + 1;
        }
        let ghost old_r = r@;
        r.insert(pos, x);
        assert forall|a: int, b: int| 0 <= a < b < r@.len() implies !runs_before(
            #[trigger] r@[b],
            #[trigger] r@[a],
        ) by {
            if a < pos && b == pos {
            } else if a == pos && b > pos {
                assert(r@[b] == old_r[b - 1]);
                assert(runs_before(x, old_r[pos as int]));
                if b - 1 > pos {
                    assert(!runs_before(old_r[b - 1], old_r[pos as int]));
                }
            } else if a < pos && b > pos {
                assert(r@[b] == old_r[b - 1]);
            } else if a > pos {
                assert(r@[a] == old_r[a - 1] && r@[b] == old_r[b - 1]);
            }
        }
        assert(scenes@.subrange(0, i + 1) =~= scenes@.subrange(0, i as int).push(x));
        i = i + 1;
    }
    assert(scenes@.subrange(0, i as int) =~= scenes@);
    r
}

/// Reordering scenes keeps their indices distinct.
pub proof fn lemma_reorder_keeps_indices_distinct(s: Seq<Scene>, r: Seq<Scene>)
    requires
        r.to_multiset() == s.to_multiset(),
        indices_of(s).no_duplicates(),
    ensures
        indices_of(r).no_duplicates(),
{
    assert forall|i: int, j: int| 0 <= i < s.len() && 0 <= j < s.len() && i != j implies s[i]
        != s[j] by {
        assert(indices_of(s)[i] == s[i].index && indices_of(s)[j] == s[j].index);
    }
    s.lemma_multiset_has_no_duplicates();
    r.lemma_multiset_has_no_duplicates_conv();
    let ri = indices_of(r);
    assert forall|a: int, b: int| 0 <= a < b < ri.len() implies ri[a] != ri[b] by {
        assert(r.contains(r[a]) && r.contains(r[b]));
        assert(r.to_multiset().count(r[a]) > 0 && r.to_multiset().count(r[b]) > 0);
        assert(s.contains(r[a]) && s.contains(r[b]));
        let i = choose|i: int| 0 <= i < s.len() && s[i] == r[a];
        let j = choose|j: int| 0 <= j < s.len() && s[j] == r[b];
        assert(indices_of(s)[i] == r[a].index && indices_of(s)[j] == r[b].index);
        if ri[a] == ri[b] {
            assert(i == j);
        }
    }
}

/// The indices of a list of scenes, in order.
pub fn scene_indices(scenes: &Vec<Scene>) -> (r: Vec<usize>)
    ensures
        r@ == indices_of(scenes@),
{
    let mut r: Vec<usize> = Vec::new();
    let mut i: usize = 0;
    while i < scenes.len()
        invariant
            i <= scenes@.len(),
            r@ == indices_of(scenes@.subrange(0, i as int)),
        decreases scenes@.len() - i,
    {
        r.push(scenes[i].index);
        i = i + 1;
        assert(r@ =~= indices_of(scenes@.subrange(0, i as int)));
    }
    assert(scenes@.subrange(0, i as int) =~= scenes@);
    r
}

/// The pool of a run: the scenes not yet complete, shortest first, for
/// `workers` idle workers.
pub fn plan_dispatch(scenes: &Vec<Scene>, checkpoint: &Checkpoint, workers: usize) -> (r: ScenePool)
    requires
        indices_of(scenes@).no_duplicates(),
    ensures
        r.wf(),
        r.workers() == workers,
        r.handed_out() == 0,
        forall|w: int| 0 <= w < workers ==> r.holding(w) is None,
        exists|o: Seq<Scene>|
            o.to_multiset() == scenes@.to_multiset() && in_dispatch_order(o) && r.queue()
                == indices_of(pending_of(o, checkpoint.completed())),
{
    let order = dispatch_order(scenes);
    proof {
        lemma_reorder_keeps_indices_distinct(scenes@, order@);
        crate::checkpoint::lemma_pending_members(order@, checkpoint.completed());
    }
    let pending = checkpoint.pending(&order);
    let queue = scene_indices(&pending);
    match ScenePool::new(queue, workers) {
        Some(p) => p,
        None => {
            assert(false);
            ScenePool { queue: Vec::new(), next: 0, held: Vec::new() }
        },
    }
}

/// Which worker holds which scene.
///
/// Scenes are handed out once each, in queue order; a worker holds at most one
/// scene at a time.
pub struct ScenePool {
    queue: Vec<usize>,
    next: usize,
    held: Vec<Option<usize>>,
}

impl ScenePool {
    /// Scene indices in the order they are handed out.
    pub closed spec fn queue(&self) -> Seq<usize> {
        self.queue@
    }

    /// How many scenes have been handed out.
    pub closed spec fn handed_out(&self) -> int {
        self.next as int
    }

    pub closed spec fn workers(&self) -> int {
        self.held@.len() as int
    }

    /// The scene worker `w` holds, if any.
    pub closed spec fn holding(&self, w: int) -> Option<usize> {
        match self.held@[w] {
            Some(p) => Some(self.queue@[p as int]),
            None => None,
        }
    }

    pub closed spec fn wf(&self) -> bool {
        &&& self.queue@.no_duplicates()
        &&& self.next <= self.queue@.len()
        &&& forall|w: int|
            0 <= w < self.held@.len() ==> (#[trigger] self.held@[w] matches Some(p) ==> p
                < self.next)
        &&& forall|v: int, w: int|
            0 <= v < self.held@.len() && 0 <= w < self.held@.len() && v != w && (
            #[trigger] self.held@[v]) is Some && (#[trigger] self.held@[w]) is Some ==> self.held@[v]
                != self.held@[w]
    }

    /// A pool over `queue` with `workers` idle workers, or `None` when the
    /// queue names a scene twice.
    pub fn new(queue: Vec<usize>, workers: usize) -> (r: Option<ScenePool>)
        ensures
            r is None <==> !queue@.no_duplicates(),
            r matches Some(p) ==> {
                &&& p.wf()
                &&& p.queue() == queue@
                &&& p.handed_out() == 0
                &&& p.workers() == workers
                &&& forall|w: int| 0 <= w < workers ==> p.holding(w) is None
            },
    {
        let mut i: usize = 0;
        while i < queue.len()
            invariant
                i <= queue@.len(),
                forall|a: int, b: int| 0 <= a < b < queue@.len() && a < i ==> queue@[a] != queue@[b],
            decreases queue@.len() - i,
        {
            let mut j: usize = i + 1;
            while j < queue.len()
                invariant
                    i < queue@.len(),
                    i + 1 <= j <= queue@.len(),
                    forall|b: int| i < b < j ==> queue@[i as int] != queue@[b],
                decreases queue@.len() - j,
            {
                if queue[i] == queue[j] {
                    return None;
                }
                j = j + 1;
            }
            i = i + 1;
        }
        let mut held: Vec<Option<usize>> = Vec::new();
        let mut k: usize = 0;
        while k < workers
            invariant
                k <= workers,
                held@.len() == k,
                forall|w: int| 0 <= w < k ==> held@[w] is None,
            decreases workers - k,
        {
            held.push(None);
            k = k + 1;
        }
        Some(ScenePool { queue, next: 0, held })
    }

    /// Hands the next scene to worker `w`. Nothing is handed out when `w` is
    /// not a worker of this pool, already holds a scene, or the queue is spent.
    pub fn claim(&mut self, w: usize) -> (r: Option<usize>)
        requires
            old(self).wf(),
        ensures
            final(self).wf(),
            final(self).queue() == old(self).queue(),
            final(self).workers() == old(self).workers(),
            r is Some <==> (w < old(self).workers() && old(self).holding(w as int) is None
                && old(self).handed_out() < old(self).queue().len()),
            r matches Some(s) ==> {
                &&& s == old(self).queue()[old(self).handed_out()]
                &&& final(self).handed_out() == old(self).handed_out() + 1
                &&& final(self).holding(w as int) == Some(s)
            },
            r is None ==> final(self).handed_out() == old(self).handed_out(),
            forall|v: int|
                0 <= v < old(self).workers() && v != w ==> final(self).holding(v) == old(
                    self,
                ).holding(v),
            r is None ==> forall|v: int|
                0 <= v < old(self).workers() ==> final(self).holding(v) == old(self).holding(v),
    {
        if w >= self.held.len() || self.held[w].is_some() || self.next >= self.queue.len() {
            return None;
        }
        let p = self.next;
        self.held.set(w, Some(p));
        self.next = self.next + 1;
        Some(self.queue[p])
    }

    /// Worker `w` gives back the scene it holds, which it returns.
    pub fn release(&mut self, w: usize) -> (r: Option<usize>)
        requires
            old(self).wf(),
        ensures
            final(self).wf(),
            final(self).queue() == old(self).queue(),
            final(self).workers() == old(self).workers(),
            final(self).handed_out() == old(self).handed_out(),
            r == (if w < old(self).workers() {
                old(self).holding(w as int)
            } else {
                None
            }),
            w < old(self).workers() ==> final(self).holding(w as int) is None,
            forall|v: int|
                0 <= v < old(self).workers() && v != w ==> final(self).holding(v) == old(
                    self,
                ).holding(v),
    {
        if w >= self.held.len() {
            return None;
        }
        match self.held[w] {
            Some(p) => {
                self.held.set(w, None);
                Some(self.queue[p])
            },
            None => None,
        }
    }

    /// How many scenes are still to be handed out.
    pub fn remaining(&self) -> (r: usize)
        requires
            self.wf(),
        ensures
            r == self.queue().len() - self.handed_out(),
    {
        self.queue.len() - self.next
    }

    /// Two different workers never hold the same scene.
    pub proof fn lemma_no_shared_scene(&self, v: int, w: int)
        requires
            self.wf(),
            0 <= v < self.workers(),
            0 <= w < self.workers(),
            v != w,
            self.holding(v) is Some,
        ensures
            self.holding(v) != self.holding(w),
    {
        if self.held@[w] is Some {
            let pv = self.held@[v]->0;
            let pw = self.held@[w]->0;
            assert(pv != pw);
            assert(pv < self.next && pw < self.next);
        }
    }
}

} // verus!

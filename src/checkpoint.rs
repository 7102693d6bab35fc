//! The checkpoint: which scenes are durably complete, and the size ledger
//! of their original and encoded sizes. Both logs are append-only text; on
//! load, partial and repeated lines from crashed runs are tolerated.
use vstd::prelude::*;
use crate::segment::Scene;
use crate::text::{
    digit_end, digits_up_to, digits_value, number_after, number_after_key, push_decimal,
    skip_digits, skip_spaces, space_end, decimal,
};

verus! {

/// Sizes of one completed scene, in kilobytes as the encoder reports them.
#[derive(Clone, Copy, Debug, PartialEq, Eq)]
pub struct LedgerEntry {
    pub index: usize,
    pub original_kb: u64,
    pub encoded_kb: u64,
}

/// A completed-index line: one integer, possibly padded with whitespace.
pub open spec fn index_line_value(s: Seq<u8>) -> Option<nat> {
    let a = space_end(s, 0);
    let e = digit_end(s, a);
    if e > a && space_end(s, e) == s.len() {
        Some(digits_value(s.subrange(a, e)))
    } else {
        None
    }
}

pub open spec fn index_key() -> Seq<u8> {
    seq![105u8, 110, 100, 101, 120, 58]
}

pub open spec fn original_key() -> Seq<u8> {
    seq![115u8, 99, 101, 110, 101, 95, 115, 105, 122, 101, 58]
}

pub open spec fn encoded_key() -> Seq<u8> {
    seq![101u8, 110, 99, 111, 100, 101, 100, 95, 115, 105, 122, 101, 58]
}

/// A ledger line: `index: I, scene_size: O, encoded_size: E`.
pub open spec fn ledger_line(e: LedgerEntry) -> Seq<u8> {
    index_key() + seq![32u8] + decimal(e.index as nat) + seq![44u8, 32u8] + original_key() + seq![
        32u8,
    ] + decimal(e.original_kb as nat) + seq![44u8, 32u8] + encoded_key() + seq![32u8] + decimal(
        e.encoded_kb as nat,
    )
}

/// The entry a ledger line records, when all three fields are present.
pub open spec fn ledger_entry_of(s: Seq<u8>) -> Option<LedgerEntry> {
    match (
        number_after_key(s, index_key()),
        number_after_key(s, original_key()),
        number_after_key(s, encoded_key()),
    ) {
        (Some(i), Some(o), Some(e)) => if i <= u32::MAX && o <= u64::MAX && e <= u64::MAX {
            Some(LedgerEntry { index: i as usize, original_kb: o as u64, encoded_kb: e as u64 })
        } else {
            None
        },
        _ => None,
    }
}

/// The scenes still to run: those whose index is not complete, in their order.
pub open spec fn pending_of(scenes: Seq<Scene>, done: Seq<usize>) -> Seq<Scene>
    decreases scenes.len(),
{
    if scenes.len() == 0 {
        Seq::empty()
    } else {
        let rest = pending_of(scenes.drop_last(), done);
        if done.contains(scenes.last().index) {
            rest
        } else {
            rest.push(scenes.last())
        }
    }
}

pub open spec fn indices_of(scenes: Seq<Scene>) -> Seq<usize> {
    scenes.map_values(|s: Scene| s.index)
}

/// Parses a completed-index line; `None` for a partial or malformed line,
/// or an index beyond `u32::MAX`.
pub fn parse_index_line(line: &[u8]) -> (r: Option<usize>)
    ensures
        r matches Some(v) ==> index_line_value(line@) == Some(v as nat),
        r is None ==> match index_line_value(line@) {
            Some(v) => v > u32::MAX,
            None => true,
        },
{
    let a = skip_spaces(line, 0);
    let e = skip_digits(line, a);
    if e == a || skip_spaces(line, e) != line.len() {
        return None;
    }
    match digits_up_to(line, a, e, u32::MAX as u64) {
        Some(v) => Some(v as usize),
        None => None,
    }
}

/// Parses a size-ledger line; `None` when a field is missing or out of range
/// (an index beyond `u32::MAX`, a size beyond `u64::MAX`).
pub fn parse_ledger_line(line: &[u8]) -> (r: Option<LedgerEntry>)
    ensures
        r == ledger_entry_of(line@),
{
    let ik = vec![105u8, 110, 100, 101, 120, 58];
    let ok = vec![115u8, 99, 101, 110, 101, 95, 115, 105, 122, 101, 58];
    let ek = vec![101u8, 110, 99, 111, 100, 101, 100, 95, 115, 105, 122, 101, 58];
    assert(ik@ =~= index_key());
    assert(ok@ =~= original_key());
    assert(ek@ =~= encoded_key());
    let i = number_after(line, ik.as_slice(), u32::MAX as u64);
    let o = number_after(line, ok.as_slice(), u64::MAX);
    let e = number_after(line, ek.as_slice(), u64::MAX);
    proof {
        if i is None {
            assert(ledger_entry_of(line@) is None);
        }
        if o is None {
            assert(ledger_entry_of(line@) is None);
        }
        if e is None {
            assert(ledger_entry_of(line@) is None);
        }
    }
    match (i, o, e) {
        (Some(i), Some(o), Some(e)) => {
            assert(i <= u32::MAX);
            let idx: usize = i as usize;
            assert(idx as int == i as int);
            let r = LedgerEntry { index: idx, original_kb: o, encoded_kb: e };
            assert(ledger_entry_of(line@) == Some(r));
            Some(r)
        },
        _ => None,
    }
}

/// Formats an entry as a ledger line (without the line break).
pub fn format_ledger_line(e: &LedgerEntry) -> (r: Vec<u8>)
    ensures
        r@ == ledger_line(*e),
{
    let mut r = vec![105u8, 110, 100, 101, 120, 58, 32];
    push_decimal(&mut r, e.index as u64);
    let mut mid = vec![44u8, 32, 115, 99, 101, 110, 101, 95, 115, 105, 122, 101, 58, 32];
    r.append(&mut mid);
    push_decimal(&mut r, e.original_kb);
    let mut tail = vec![44u8, 32, 101, 110, 99, 111, 100, 101, 100, 95, 115, 105, 122, 101, 58, 32];
    r.append(&mut tail);
    push_decimal(&mut r, e.encoded_kb);
    assert(r@ =~= ledger_line(*e));
    r
}

/// The completed set and the size ledger of one input file.
pub struct Checkpoint {
    completed: Vec<usize>,
    ledger: Vec<LedgerEntry>,
}

impl Checkpoint {
    /// Completed scene indices, each once, in the order they completed.
    pub closed spec fn completed(&self) -> Seq<usize> {
        self.completed@
    }

    /// Ledger entries, at most one per index, in the order they were recorded.
    pub closed spec fn ledger(&self) -> Seq<LedgerEntry> {
        self.ledger@
    }

    pub closed spec fn wf(&self) -> bool {
        &&& self.completed@.no_duplicates()
        &&& forall|a: int, b: int|
            0 <= a < b < self.ledger@.len() ==> (#[trigger] self.ledger@[a]).index != (
            #[trigger] self.ledger@[b]).index
    }

    pub fn new() -> (c: Checkpoint)
        ensures
            c.wf(),
            c.completed() == Seq::<usize>::empty(),
            c.ledger() == Seq::<LedgerEntry>::empty(),
    {
        Checkpoint { completed: Vec::new(), ledger: Vec::new() }
    }

    pub fn is_done(&self, index: usize) -> (r: bool)
        ensures
            r == self.completed().contains(index),
    {
        let mut i: usize = 0;
        while i < self.completed.len()
            invariant
                i <= self.completed@.len(),
                forall|k: int| 0 <= k < i ==> self.completed@[k] != index,
            decreases self.completed@.len() - i,
        {
            if self.completed[i] == index {
                return true;
            }
            i = i + 1;
        }
        false
    }

    /// Marks a scene complete; a repeated index changes nothing. Returns
    /// whether the index was new.
    pub fn mark_done(&mut self, index: usize) -> (added: bool)
        requires
            old(self).wf(),
        ensures
            final(self).wf(),
            added == !old(self).completed().contains(index),
            final(self).completed() == (if added {
                old(self).completed().push(index)
            } else {
                old(self).completed()
            }),
            final(self).ledger() == old(self).ledger(),
    {
        if self.is_done(index) {
            return false;
        }
        self.completed.push(index);
        proof {
            assert forall|a: int, b: int|
                0 <= a < b < self.completed@.len() implies self.completed@[a]
                != self.completed@[b] by {
                if b == self.completed@.len() - 1 {
                    assert(self.completed@[a] == old(self).completed@[a]);
                    assert(old(self).completed@.contains(old(self).completed@[a]));
                }
            }
        }
        true
    }

    /// Reads one line of the completed-index log; malformed lines are skipped.
    pub fn load_index_line(&mut self, line: &[u8]) -> (r: Option<usize>)
        requires
            old(self).wf(),
        ensures
            final(self).wf(),
            r matches Some(v) ==> index_line_value(line@) == Some(v as nat),
            r is None ==> match index_line_value(line@) {
                Some(v) => v > u32::MAX,
                None => true,
            },
            r is None ==> final(self).completed() == old(self).completed(),
            r matches Some(v) ==> final(self).completed() == (if old(self).completed().contains(
                v,
            ) {
                old(self).completed()
            } else {
                old(self).completed().push(v)
            }),
            final(self).ledger() == old(self).ledger(),
    {
        let r = parse_index_line(line);
        if let Some(v) = r {
            self.mark_done(v);
        }
        r
    }

    /// Reads one line of the size ledger: an entry is kept when the line is
    /// well formed and its scene is complete (and no entry for the scene is
    /// kept yet). Returns the entry read, if any.
    pub fn load_ledger_line(&mut self, line: &[u8]) -> (r: Option<LedgerEntry>)
        requires
            old(self).wf(),
        ensures
            final(self).wf(),
            r == ledger_entry_of(line@),
            final(self).completed() == old(self).completed(),
            final(self).ledger() == (match r {
                Some(e) => if old(self).completed().contains(e.index) && !(exists|k: int|
                    0 <= k < old(self).ledger().len() && (#[trigger] old(self).ledger()[k]).index
                        == e.index) {
                    old(self).ledger().push(e)
                } else {
                    old(self).ledger()
                },
                None => old(self).ledger(),
            }),
    {
        let r = parse_ledger_line(line);
        if let Some(e) = r {
            if self.is_done(e.index) {
                self.record_sizes(e);
            }
        }
        r
    }

    /// Records the sizes of a completed scene; a second entry for the same
    /// index is ignored. Returns whether the entry was new.
    pub fn record_sizes(&mut self, e: LedgerEntry) -> (added: bool)
        requires
            old(self).wf(),
        ensures
            final(self).wf(),
            added == !(exists|k: int|
                0 <= k < old(self).ledger().len() && (#[trigger] old(self).ledger()[k]).index
                    == e.index),
            final(self).ledger() == (if added {
                old(self).ledger().push(e)
            } else {
                old(self).ledger()
            }),
            final(self).completed() == old(self).completed(),
    {
        let mut i: usize = 0;
        while i < self.ledger.len()
            invariant
                i <= self.ledger@.len(),
                self.ledger@ == old(self).ledger@,
                self.completed@ == old(self).completed@,
                old(self).wf(),
                forall|k: int| 0 <= k < i ==> (#[trigger] self.ledger@[k]).index != e.index,
            decreases self.ledger@.len() - i,
        {
            if self.ledger[i].index == e.index {
                assert(old(self).ledger()[i as int].index == e.index);
                return false;
            }
            i = i + 1;
        }
        self.ledger.push(e);
        true
    }

    /// Records a completed scene: its sizes, then its index.
    pub fn complete_scene(&mut self, e: LedgerEntry)
        requires
            old(self).wf(),
        ensures
            final(self).wf(),
            final(self).completed().contains(e.index),
            final(self).completed() == (if old(self).completed().contains(e.index) {
                old(self).completed()
            } else {
                old(self).completed().push(e.index)
            }),
            final(self).ledger() == (if exists|k: int|
                0 <= k < old(self).ledger().len() && (#[trigger] old(self).ledger()[k]).index
                    == e.index {
                old(self).ledger()
            } else {
                old(self).ledger().push(e)
            }),
    {
        self.record_sizes(e);
        self.mark_done(e.index);
        proof {
            if !old(self).completed().contains(e.index) {
                assert(self.completed()[self.completed().len() - 1] == e.index);
            }
        }
    }

    /// Forgets everything; done once the final file is assembled.
    pub fn clear(&mut self)
        ensures
            final(self).wf(),
            final(self).completed() == Seq::<usize>::empty(),
            final(self).ledger() == Seq::<LedgerEntry>::empty(),
    {
        self.completed = Vec::new();
        self.ledger = Vec::new();
    }

    pub fn completed_indices(&self) -> (r: &Vec<usize>)
        ensures
            r@ == self.completed(),
    {
        &self.completed
    }

    pub fn ledger_entries(&self) -> (r: &Vec<LedgerEntry>)
        ensures
            r@ == self.ledger(),
    {
        &self.ledger
    }

    /// The scenes not yet complete, in the order given.
    pub fn pending(&self, scenes: &Vec<Scene>) -> (r: Vec<Scene>)
        ensures
            r@ == pending_of(scenes@, self.completed()),
    {
        let mut r: Vec<Scene> = Vec::new();
        let mut i: usize = 0;
        while i < scenes.len()
            invariant
                i <= scenes@.len(),
                r@ == pending_of(scenes@.subrange(0, i as int), self.completed()),
            decreases scenes@.len() - i,
        {
            assert(scenes@.subrange(0, i + 1).drop_last() =~= scenes@.subrange(0, i as int));
            if !self.is_done(scenes[i].index) {
                r.push(scenes[i]);
            }
            i = i + 1;
        }
        assert(scenes@.subrange(0, i as int) =~= scenes@);
        r
    }
}

/// A scene is pending exactly when it is listed and its index is not
/// complete; pending scenes keep distinct indices.
pub proof fn lemma_pending_members(scenes: Seq<Scene>, done: Seq<usize>)
    ensures
        forall|s: Scene|
            pending_of(scenes, done).contains(s) <==> (scenes.contains(s) && !done.contains(
                s.index,
            )),
        indices_of(scenes).no_duplicates() ==> indices_of(pending_of(scenes, done)).no_duplicates(),
    decreases scenes.len(),
{
    if scenes.len() > 0 {
        let init = scenes.drop_last();
        lemma_pending_members(init, done);
        let rest = pending_of(init, done);
        assert(scenes =~= init.push(scenes.last()));
        assert forall|s: Scene| scenes.contains(s) <==> (init.contains(s) || s == scenes.last()) by {
            if scenes.contains(s) {
                let k = choose|k: int| 0 <= k < scenes.len() && scenes[k] == s;
                if k < scenes.len() - 1 {
                    assert(init[k] == s);
                }
            }
            if init.contains(s) {
                let k = choose|k: int| 0 <= k < init.len() && init[k] == s;
                assert(scenes[k] == s);
            }
        }
        assert forall|s: Scene| rest.push(scenes.last()).contains(s) <==> (rest.contains(s) || s
            == scenes.last()) by {
            if rest.push(scenes.last()).contains(s) {
                let k = choose|k: int| 0 <= k < rest.len() + 1 && rest.push(scenes.last())[k] == s;
                if k < rest.len() {
                    assert(rest[k] == s);
                }
            }
            if rest.contains(s) {
                let k = choose|k: int| 0 <= k < rest.len() && rest[k] == s;
                assert(rest.push(scenes.last())[k] == s);
            }
            if s == scenes.last() {
                assert(rest.push(scenes.last())[rest.len() as int] == s);
            }
        }
        if indices_of(scenes).no_duplicates() {
            assert(indices_of(init) =~= indices_of(scenes).drop_last());
            assert(indices_of(init).no_duplicates());
            if !done.contains(scenes.last().index) {
                let ri = indices_of(rest);
                let p = indices_of(rest.push(scenes.last()));
                assert(p =~= ri.push(scenes.last().index));
                assert forall|a: int, b: int| 0 <= a < b < p.len() implies p[a] != p[b] by {
                    if b == p.len() - 1 {
                        assert(rest.contains(rest[a]));
                        assert(init.contains(rest[a]));
                        let k = choose|k: int| 0 <= k < init.len() && init[k] == rest[a];
                        assert(indices_of(scenes)[k] == rest[a].index);
                        assert(indices_of(scenes)[scenes.len() - 1] == scenes.last().index);
                    }
                }
            }
        }
    }
}

/// Resuming runs exactly the unfinished scenes: a scene is dispatched if and
/// only if its index is not checkpointed, and once the dispatched scenes
/// complete, the checkpoint holds every scene index exactly once.
pub proof fn lemma_resume_completes_once(scenes: Seq<Scene>, done: Seq<usize>)
    requires
        indices_of(scenes).no_duplicates(),
        done.no_duplicates(),
        forall|d: usize| done.contains(d) ==> indices_of(scenes).contains(d),
    ensures
        ({
            let rest = pending_of(scenes, done);
            let fin = done + indices_of(rest);
            &&& forall|s: Scene|
                rest.contains(s) <==> (scenes.contains(s) && !done.contains(s.index))
            &&& fin.no_duplicates()
            &&& fin.to_set() == indices_of(scenes).to_set()
        }),
{
    lemma_pending_members(scenes, done);
    let rest = pending_of(scenes, done);
    let ri = indices_of(rest);
    let fin = done + ri;
    assert forall|x: usize| ri.contains(x) <==> (indices_of(scenes).contains(x) && !done.contains(
        x,
    )) by {
        if ri.contains(x) {
            let k = choose|k: int| 0 <= k < ri.len() && ri[k] == x;
            assert(rest.contains(rest[k]));
            assert(scenes.contains(rest[k]));
            let j = choose|j: int| 0 <= j < scenes.len() && scenes[j] == rest[k];
            assert(indices_of(scenes)[j] == x);
        }
        if indices_of(scenes).contains(x) && !done.contains(x) {
            let j = choose|j: int| 0 <= j < scenes.len() && indices_of(scenes)[j] == x;
            assert(scenes.contains(scenes[j]));
            assert(rest.contains(scenes[j]));
            let k = choose|k: int| 0 <= k < rest.len() && rest[k] == scenes[j];
            assert(ri[k] == x);
        }
    }
    assert forall|a: int, b: int| 0 <= a < b < fin.len() implies fin[a] != fin[b] by {
        if a < done.len() && b >= done.len() {
            assert(ri.contains(fin[b]));
            assert(done.contains(fin[a]));
        } else if a >= done.len() {
            assert(fin[a] == ri[a - done.len()] && fin[b] == ri[b - done.len()]);
        }
    }
    assert forall|x: usize| fin.to_set().contains(x) <==> indices_of(scenes).to_set().contains(
        x,
    ) by {
        if fin.contains(x) {
            let k = choose|k: int| 0 <= k < fin.len() && fin[k] == x;
            if k < done.len() {
                assert(done.contains(x));
            } else {
                assert(ri[k - done.len()] == x);
                assert(ri.contains(x));
            }
        }
        if indices_of(scenes).contains(x) {
            if done.contains(x) {
                let k = choose|k: int| 0 <= k < done.len() && done[k] == x;
                assert(fin[k] == x);
            } else {
                let k = choose|k: int| 0 <= k < ri.len() && ri[k] == x;
                assert(fin[done.len() + k] == x);
            }
        }
    }
    assert(fin.to_set() =~= indices_of(scenes).to_set());
}

} // verus!

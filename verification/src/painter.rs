//! Transform-group bookkeeping of the immediate-mode painter.
//!
//! `push()` / `pop()` bracket multiple `translate` / `rotate` / `scale`
//! calls. A single `pop()` undoes every transform pushed since the
//! matching `push()`. Transforms applied outside any group are left on
//! the drawing context: `pop()` cannot undo them.

use vstd::prelude::*;

verus! {

/// One entry per open `push()` group: how many transforms were pushed to
/// the drawing context since that `push()`.
#[derive(Debug)]
pub struct TransformStack {
    groups: Vec<u32>,
}

/// The groups after a `push()`: a new, empty innermost group.
pub open spec fn opened(groups: Seq<u32>) -> Seq<u32> {
    groups.push(0)
}

/// The groups after one transform is applied: the innermost group, if
/// any, counts it.
pub open spec fn counted(groups: Seq<u32>) -> Seq<u32> {
    if groups.len() == 0 {
        groups
    } else {
        groups.update(groups.len() - 1, (groups.last() + 1) as u32)
    }
}

/// How many transforms a `pop()` undoes: those of the innermost group, or
/// none without an open group.
pub open spec fn undone(groups: Seq<u32>) -> u32 {
    if groups.len() == 0 {
        0
    } else {
        groups.last()
    }
}

/// The groups after a `pop()`: the innermost group is closed.
pub open spec fn closed_innermost(groups: Seq<u32>) -> Seq<u32> {
    if groups.len() == 0 {
        groups
    } else {
        groups.drop_last()
    }
}

/// One more transform can be counted without overflowing the innermost
/// group's counter.
pub open spec fn can_count(groups: Seq<u32>) -> bool {
    groups.len() > 0 ==> groups.last() < u32::MAX
}

/// `k` transforms applied in a row.
pub open spec fn counted_times(groups: Seq<u32>, k: nat) -> Seq<u32>
    decreases k,
{
    if k == 0 {
        groups
    } else {
        counted(counted_times(groups, (k - 1) as nat))
    }
}

impl View for TransformStack {
    type V = Seq<u32>;

    closed spec fn view(&self) -> Seq<u32> {
        self.groups@
    }
}

impl TransformStack {
    /// No open group.
    pub fn new() -> (res: Self)
        ensures
            res@ == Seq::<u32>::empty(),
    {
        TransformStack { groups: Vec::new() }
    }

    /// Begin a transform group.
    pub fn push(&mut self)
        ensures
            final(self)@ == opened(old(self)@),
            final(self)@ == old(self)@.push(0),
    {
        self.groups.push(0);
    }

    /// Count one transform pushed to the drawing context.
    pub fn record(&mut self)
        requires
            can_count(old(self)@),
        ensures
            final(self)@ == counted(old(self)@),
            old(self)@.len() == 0 ==> final(self)@ == old(self)@,
            old(self)@.len() > 0 ==> final(self)@.len() == old(self)@.len() && final(self)@.last()
                == old(self)@.last() + 1 && final(self)@.drop_last() == old(self)@.drop_last(),
    {
        let n = self.groups.len();
        if n > 0 {
            let top = self.groups[n - 1];
            self.groups.set(n - 1, top + 1);
        }
    }

    /// End the innermost group; returns how many transforms the drawing
    /// context must pop to undo it (0 without an open group).
    pub fn pop(&mut self) -> (res: u32)
        ensures
            res == undone(old(self)@),
            final(self)@ == closed_innermost(old(self)@),
            old(self)@.len() == 0 ==> res == 0 && final(self)@ == old(self)@,
            old(self)@.len() > 0 ==> res == old(self)@.last() && final(self)@ == old(self)@.drop_last(),
    {
        match self.groups.pop() {
            Some(n) => n,
            None => 0,
        }
    }

    /// The innermost group's count, if a group is open.
    pub fn innermost(&self) -> (res: Option<u32>)
        ensures
            res == (if self@.len() == 0 {
                None
            } else {
                Some(self@.last())
            }),
    {
        let n = self.groups.len();
        if n > 0 {
            Some(self.groups[n - 1])
        } else {
            None
        }
    }
}

/// A `pop()` undoes exactly the transforms applied since the matching
/// `push()` and leaves the groups as they were before that `push()`.
pub proof fn lemma_pop_undoes_group(groups: Seq<u32>, k: nat)
    requires
        k <= u32::MAX,
    ensures
        undone(counted_times(opened(groups), k)) == k,
        closed_innermost(counted_times(opened(groups), k)) == groups,
    decreases k,
{
    if k > 0 {
        lemma_pop_undoes_group(groups, (k - 1) as nat);
        let prev = counted_times(opened(groups), (k - 1) as nat);
        assert(prev.len() == groups.len() + 1) by {
            lemma_counted_times_len(opened(groups), (k - 1) as nat);
        }
        assert(counted(prev).drop_last() =~= prev.drop_last());
    } else {
        assert(opened(groups).drop_last() =~= groups);
    }
}

proof fn lemma_counted_times_len(groups: Seq<u32>, k: nat)
    ensures
        counted_times(groups, k).len() == groups.len(),
    decreases k,
{
    if k > 0 {
        lemma_counted_times_len(groups, (k - 1) as nat);
    }
}

/// Transforms applied outside any group are not counted: `pop()` will
/// not undo them.
pub proof fn lemma_ungrouped_not_counted(k: nat)
    ensures
        counted_times(Seq::<u32>::empty(), k) == Seq::<u32>::empty(),
        undone(counted_times(Seq::<u32>::empty(), k)) == 0,
    decreases k,
{
    if k > 0 {
        lemma_ungrouped_not_counted((k - 1) as nat);
    }
}

} // verus!

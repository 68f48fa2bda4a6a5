//! Multi-select and marquee selection for canvas elements.
//!
//! Provides `SelectionState` for tracking selected region ids,
//! `MarqueeState` for active box-select drags, and `CanvasTool`
//! for switching between pan and selection modes.

use vstd::prelude::*;

use blinc_core::layer::{Point, Rect};

use crate::coords::{rect_spanning, span_rect};
use crate::id_set::IdSet;

verus! {

/// Tool mode for canvas interaction.
///
/// In `Pan` mode, background drag pans the viewport.
/// In `Select` mode, background drag draws a marquee selection rectangle.
/// Element drag always moves selected elements regardless of tool mode.
#[derive(Clone, Copy, Debug, PartialEq, Eq, Structural)]
pub enum CanvasTool {
    /// Background drag pans viewport. Shift+drag for marquee.
    Pan,
    /// Background drag draws marquee. Element drag moves selection.
    Select,
}

impl Default for CanvasTool {
    fn default() -> (tool: Self)
        ensures
            tool == CanvasTool::Pan,
    {
        CanvasTool::Pan
    }
}

/// Active marquee (box-select) drag state.
#[derive(Debug)]
pub struct MarqueeState {
    /// Content-space anchor point (where drag started).
    pub anchor: Point,
    /// Content-space current point (where pointer is now).
    pub current: Point,
    /// Whether shift was held at marquee start (additive mode).
    pub additive: bool,
    /// Snapshot of selected ids when marquee started (for additive mode).
    pub base_selection: IdSet,
}

impl Clone for MarqueeState {
    fn clone(&self) -> (res: Self)
        ensures
            res.anchor == self.anchor,
            res.current == self.current,
            res.additive == self.additive,
            res.base_selection@ == self.base_selection@,
    {
        MarqueeState {
            anchor: self.anchor,
            current: self.current,
            additive: self.additive,
            base_selection: self.base_selection.clone(),
        }
    }
}

impl MarqueeState {
    /// The marquee rectangle (normalized: positive width/height).
    pub fn rect(&self) -> (res: Rect)
        ensures
            rect_spanning(self.anchor, self.current, res),
    {
        span_rect(self.anchor, self.current)
    }
}

/// Event emitted when the selection changes.
#[derive(Debug)]
pub struct SelectionChangeEvent {
    /// The new complete set of selected region ids.
    pub selected: IdSet,
    /// Ids that were added in this change.
    pub added: IdSet,
    /// Ids that were removed in this change.
    pub removed: IdSet,
}

impl Clone for SelectionChangeEvent {
    fn clone(&self) -> (res: Self)
        ensures
            res.selected@ == self.selected@,
            res.added@ == self.added@,
            res.removed@ == self.removed@,
    {
        SelectionChangeEvent {
            selected: self.selected.clone(),
            added: self.added.clone(),
            removed: self.removed.clone(),
        }
    }
}

impl SelectionChangeEvent {
    /// The event describes the change of a selection from `before` to `after`.
    pub open spec fn reports(&self, before: Set<Seq<char>>, after: Set<Seq<char>>) -> bool {
        &&& self.selected@ == after
        &&& self.added@ == after.difference(before)
        &&& self.removed@ == before.difference(after)
    }

    /// The event for a change from `before` to `after`.
    pub fn between(before: &IdSet, after: &IdSet) -> (res: SelectionChangeEvent)
        ensures
            res.reports(before@, after@),
    {
        let added = after.difference(before);
        let removed = before.difference(after);
        SelectionChangeEvent { selected: after.clone(), added, removed }
    }
}

/// `ids` with `id` taken out if present, put in otherwise.
pub open spec fn toggled(ids: Set<Seq<char>>, id: Seq<char>) -> Set<Seq<char>> {
    if ids.contains(id) {
        ids.remove(id)
    } else {
        ids.insert(id)
    }
}

/// Toggling `id` flips whether `id` is in the set and leaves every other
/// id as it was.
pub proof fn lemma_toggled_membership(ids: Set<Seq<char>>, id: Seq<char>, x: Seq<char>)
    ensures
        toggled(ids, id).contains(id) <==> !ids.contains(id),
        x != id ==> (toggled(ids, id).contains(x) <==> ids.contains(x)),
{
}

/// Toggling the same id twice restores the selection.
pub proof fn lemma_toggle_twice(ids: Set<Seq<char>>, id: Seq<char>)
    ensures
        toggled(toggled(ids, id), id) == ids,
{
    assert(toggled(toggled(ids, id), id) =~= ids);
}

/// A change report is consistent: nothing is both added and removed,
/// added ids are selected afterwards and removed ones are not, and the
/// selection afterwards is the selection before with the added ids put in
/// and the removed ids taken out. It reports no change exactly when the
/// selection stayed the same.
pub proof fn lemma_report_consistent(
    ev: SelectionChangeEvent,
    before: Set<Seq<char>>,
    after: Set<Seq<char>>,
)
    requires
        ev.reports(before, after),
    ensures
        ev.added@.disjoint(ev.removed@),
        ev.added@.subset_of(ev.selected@),
        ev.removed@.disjoint(ev.selected@),
        ev.selected@ == before.union(ev.added@).difference(ev.removed@),
        (ev.added@.is_empty() && ev.removed@.is_empty()) <==> before == after,
{
    assert(ev.selected@ =~= before.union(ev.added@).difference(ev.removed@));
    if ev.added@.is_empty() && ev.removed@.is_empty() {
        assert forall|k: Seq<char>| before.contains(k) == after.contains(k) by {
            if before.contains(k) && !after.contains(k) {
                assert(ev.removed@.contains(k));
            }
            if after.contains(k) && !before.contains(k) {
                assert(ev.added@.contains(k));
            }
        }
        assert(before =~= after);
    }
    if before == after {
        assert(ev.added@ =~= Set::<Seq<char>>::empty());
        assert(ev.removed@ =~= Set::<Seq<char>>::empty());
    }
}

/// Selection state for multi-select.
#[derive(Debug)]
pub struct SelectionState {
    /// Currently selected region ids.
    pub selected: IdSet,
    /// Active marquee rectangle, if a marquee drag is in progress.
    pub marquee: Option<MarqueeState>,
}

impl Clone for SelectionState {
    fn clone(&self) -> (res: Self)
        ensures
            res.selected@ == self.selected@,
            res.marquee is Some <==> self.marquee is Some,
            res.marquee matches Some(m) ==> {
                let o = self.marquee->0;
                &&& m.anchor == o.anchor
                &&& m.current == o.current
                &&& m.additive == o.additive
                &&& m.base_selection@ == o.base_selection@
            },
    {
        let marquee = match &self.marquee {
            Some(m) => Some(m.clone()),
            None => None,
        };
        SelectionState { selected: self.selected.clone(), marquee }
    }
}

impl Default for SelectionState {
    fn default() -> (res: Self)
        ensures
            res.selected@ == Set::<Seq<char>>::empty(),
            res.marquee is None,
    {
        SelectionState::new()
    }
}

impl SelectionState {
    /// Nothing selected, no marquee.
    pub fn new() -> (res: Self)
        ensures
            res.selected@ == Set::<Seq<char>>::empty(),
            res.marquee is None,
    {
        SelectionState { selected: IdSet::new(), marquee: None }
    }

    /// Check if a region is selected.
    pub fn is_selected(&self, id: &str) -> (res: bool)
        ensures
            res == self.selected@.contains(id@),
    {
        self.selected.contains(id)
    }

    /// Clear the entire selection.
    pub fn clear(&mut self)
        ensures
            final(self).selected@ == Set::<Seq<char>>::empty(),
            final(self).marquee == old(self).marquee,
    {
        self.selected.clear();
    }

    /// Replace selection with a single item.
    pub fn select_single(&mut self, id: String)
        ensures
            final(self).selected@ == Set::<Seq<char>>::empty().insert(id@),
            final(self).marquee == old(self).marquee,
    {
        self.selected.clear();
        self.selected.insert(id);
    }

    /// Toggle a region in/out of the selection.
    pub fn toggle(&mut self, id: &str)
        ensures
            final(self).selected@ == toggled(old(self).selected@, id@),
            final(self).marquee == old(self).marquee,
            old(self).selected@.contains(id@) ==> final(self).selected@ == old(self).selected@.remove(id@),
            !old(self).selected@.contains(id@) ==> final(self).selected@ == old(self).selected@.insert(id@),
    {
        if self.selected.contains(id) {
            self.selected.remove(id);
        } else {
            self.selected.insert(id.to_owned());
        }
    }

    /// Add a region to the selection.
    pub fn add(&mut self, id: String)
        ensures
            final(self).selected@ == old(self).selected@.insert(id@),
            final(self).marquee == old(self).marquee,
    {
        self.selected.insert(id);
    }

    /// Replace the entire selection set.
    pub fn replace(&mut self, ids: IdSet)
        ensures
            final(self).selected == ids,
            final(self).marquee == old(self).marquee,
    {
        self.selected = ids;
    }

    /// Set the selection to `ids` and report what changed.
    ///
    /// Returns `None`, and leaves the state as it was, when `ids` holds
    /// exactly the ids already selected; otherwise the event lists the new
    /// selection and the ids added and removed.
    pub fn set_selection(&mut self, ids: IdSet) -> (res: Option<SelectionChangeEvent>)
        ensures
            final(self).selected@ == ids@,
            final(self).marquee == old(self).marquee,
            res is None <==> old(self).selected@ == ids@,
            res matches Some(ev) ==> ev.reports(old(self).selected@, ids@),
            res matches Some(ev) ==> ev.selected@ == ids@ && ev.added@ == ids@.difference(
                old(self).selected@,
            ) && ev.removed@ == old(self).selected@.difference(ids@),
            res is Some ==> final(self).selected == ids,
            res is None ==> final(self).selected == old(self).selected,
    {
        let added = ids.difference(&self.selected);
        let removed = self.selected.difference(&ids);
        if added.is_empty() && removed.is_empty() {
            proof {
                assert(self.selected@ =~= ids@) by {
                    assert forall|k: Seq<char>| self.selected@.contains(k) == ids@.contains(k) by {
                        if self.selected@.contains(k) && !ids@.contains(k) {
                            assert(removed@.contains(k));
                        }
                        if ids@.contains(k) && !self.selected@.contains(k) {
                            assert(added@.contains(k));
                        }
                    }
                }
            }
            return None;
        }
        proof {
            if self.selected@ == ids@ {
                assert(added@ =~= Set::<Seq<char>>::empty());
                assert(removed@ =~= Set::<Seq<char>>::empty());
            }
        }
        let selected = ids.clone();
        self.selected = ids;
        Some(SelectionChangeEvent { selected, added, removed })
    }
}

} // verus!

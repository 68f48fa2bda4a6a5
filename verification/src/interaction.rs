//! Pointer-event decisions of the canvas: how clicks, drags and releases
//! change the selection and the interaction state.
//!
//! Each function takes the current state and what the event brings (the
//! id of the region under the pointer, the keyboard modifiers, the tool,
//! the pointer's content-space position), updates the state, and returns
//! what the caller has to announce: selection-change events, the ids that
//! drag and click callbacks are fired for, and which gesture a drag is.
//! Coordinate conversion, hit testing against the spatial index and the
//! callbacks themselves stay with the caller.

use vstd::prelude::*;

use blinc_core::layer::Point;

use crate::hit::{clone_opt_string, opt_id, InteractionState};
use crate::id_set::IdSet;
use crate::selection::{toggled, CanvasTool, MarqueeState, SelectionChangeEvent, SelectionState};

verus! {

/// Keyboard modifiers held during a pointer event.
#[derive(Clone, Copy, Debug, PartialEq, Eq, Structural)]
pub struct Modifiers {
    pub shift: bool,
    pub ctrl: bool,
    pub meta: bool,
}

impl Modifiers {
    /// No modifier is held.
    pub open spec fn plain(self) -> bool {
        !self.shift && !self.ctrl && !self.meta
    }
}

/// `plain` holds exactly when none of Shift, Ctrl and Cmd is held: a
/// press or release with any of them held is not plain.
pub proof fn lemma_plain_iff_no_modifier(mods: Modifiers)
    ensures
        mods.plain() <==> (!mods.shift && !mods.ctrl && !mods.meta),
        mods.ctrl ==> !mods.plain(),
        mods.meta ==> !mods.plain(),
        mods.shift ==> !mods.plain(),
{
}

/// A press on region `id` with Cmd or Ctrl held flips the membership of
/// `id` and of nothing else; with only Shift held it adds `id`; a plain
/// press selects `id` alone unless it is already selected.
pub proof fn lemma_press_membership(selected: Set<Seq<char>>, id: Seq<char>, mods: Modifiers, x: Seq<char>)
    ensures
        mods.ctrl || mods.meta ==> (selection_after_press(selected, id, mods).contains(x) <==> (if x
            == id {
            !selected.contains(id)
        } else {
            selected.contains(x)
        })),
        !mods.ctrl && !mods.meta && mods.shift ==> (selection_after_press(selected, id, mods).contains(x)
            <==> (x == id || selected.contains(x))),
        !mods.ctrl && !mods.meta && !mods.shift ==> (selection_after_press(selected, id, mods).contains(x)
            <==> (if selected.contains(id) {
            selected.contains(x)
        } else {
            x == id
        })),
{
}

/// The selection after a pointer press on region `id`: Cmd/Ctrl toggles
/// it, Shift adds it, a plain press on an unselected region selects it
/// alone, and a plain press on a selected region keeps the selection.
pub open spec fn selection_after_press(
    selected: Set<Seq<char>>,
    id: Seq<char>,
    mods: Modifiers,
) -> Set<Seq<char>> {
    if mods.meta || mods.ctrl {
        toggled(selected, id)
    } else if mods.shift {
        selected.insert(id)
    } else if !selected.contains(id) {
        Set::empty().insert(id)
    } else {
        selected
    }
}

/// Whether a press on the background starts a marquee: always in
/// `Select` mode, and with Shift held in `Pan` mode.
pub open spec fn starts_marquee(tool: CanvasTool, mods: Modifiers) -> bool {
    tool == CanvasTool::Select || mods.shift
}

/// Whether a press on the background clears the selection: a plain press
/// in `Pan` mode.
pub open spec fn clears_on_background(tool: CanvasTool, mods: Modifiers) -> bool {
    mods.plain() && tool != CanvasTool::Select
}

/// `ev` reports the change from `before` to `after` exactly when the two
/// differ, and is absent otherwise.
pub open spec fn announces(
    ev: Option<SelectionChangeEvent>,
    before: Set<Seq<char>>,
    after: Set<Seq<char>>,
) -> bool {
    &&& (ev is None <==> before == after)
    &&& (ev matches Some(e) ==> e.reports(before, after))
}

/// A set holding the single id `id`.
fn single(id: String) -> (res: IdSet)
    ensures
        res@ == Set::<Seq<char>>::empty().insert(id@),
{
    let mut s = IdSet::new();
    s.insert(id);
    s
}

/// Handle a pointer press at content point `content_pt`; `hit` is the
/// topmost region under the pointer.
///
/// On a region, the selection changes as `selection_after_press` says and
/// the region becomes the active (drag) region. On the background, a
/// marquee starts when `starts_marquee` holds (keeping the current
/// selection as its base in additive, Shift, mode), and a plain press in
/// `Pan` mode clears the selection. Either way the drag starts at
/// `content_pt` and the hovered region is kept. Returns the selection
/// change, if the selection changed.
pub fn pointer_down(
    sel: &mut SelectionState,
    ia: &mut InteractionState,
    hit: Option<String>,
    tool: CanvasTool,
    mods: Modifiers,
    content_pt: Point,
) -> (res: Option<SelectionChangeEvent>)
    ensures
        final(ia).hovered == old(ia).hovered,
        final(ia).active == hit,
        final(ia).drag_start == Some(content_pt),
        !final(ia).did_drag,
        match hit {
            Some(id) => {
                &&& final(sel).selected@ == selection_after_press(old(sel).selected@, id@, mods)
                &&& final(sel).marquee == old(sel).marquee
            },
            None => {
                &&& final(sel).selected@ == (if clears_on_background(tool, mods) {
                    Set::<Seq<char>>::empty()
                } else {
                    old(sel).selected@
                })
                &&& (starts_marquee(tool, mods) ==> (final(sel).marquee matches Some(m) && {
                    &&& m.anchor == content_pt
                    &&& m.current == content_pt
                    &&& m.additive == mods.shift
                    &&& m.base_selection@ == (if mods.shift {
                        old(sel).selected@
                    } else {
                        Set::<Seq<char>>::empty()
                    })
                }))
                &&& (!starts_marquee(tool, mods) ==> final(sel).marquee == old(sel).marquee)
            },
        },
        announces(res, old(sel).selected@, final(sel).selected@),
        hit is Some && (mods.ctrl || mods.meta) && old(sel).selected@.contains(hit->0@)
            ==> final(sel).selected@ == old(sel).selected@.remove(hit->0@),
        hit is Some && (mods.ctrl || mods.meta) && !old(sel).selected@.contains(hit->0@)
            ==> final(sel).selected@ == old(sel).selected@.insert(hit->0@),
        hit is Some && !mods.ctrl && !mods.meta && mods.shift
            ==> final(sel).selected@ == old(sel).selected@.insert(hit->0@),
        hit is Some && !mods.ctrl && !mods.meta && !mods.shift && !old(sel).selected@.contains(hit->0@)
            ==> final(sel).selected@ == Set::<Seq<char>>::empty().insert(hit->0@),
        hit is Some && !mods.ctrl && !mods.meta && !mods.shift && old(sel).selected@.contains(hit->0@)
            ==> final(sel).selected@ == old(sel).selected@,
        hit is None && !mods.shift && !mods.ctrl && !mods.meta && tool != CanvasTool::Select
            ==> final(sel).selected@ == Set::<Seq<char>>::empty(),
        hit is None && (mods.shift || mods.ctrl || mods.meta || tool == CanvasTool::Select)
            ==> final(sel).selected@ == old(sel).selected@,
        hit is None && (tool == CanvasTool::Select || mods.shift) ==> (final(sel).marquee matches Some(m)
            && m.anchor == content_pt && m.current == content_pt && m.additive == mods.shift
            && m.base_selection@ == (if mods.shift {
            old(sel).selected@
        } else {
            Set::<Seq<char>>::empty()
        })),
        hit is Some || (tool != CanvasTool::Select && !mods.shift)
            ==> final(sel).marquee == old(sel).marquee,
        res is Some <==> final(sel).selected@ != old(sel).selected@,
        res matches Some(e) ==> e.selected@ == final(sel).selected@
            && e.added@ == final(sel).selected@.difference(old(sel).selected@)
            && e.removed@ == old(sel).selected@.difference(final(sel).selected@),
{
    let hovered = clone_opt_string(&ia.hovered);
    match hit {
        Some(region_id) => {
            let mut event = None;
            if mods.meta || mods.ctrl {
                let mut new_sel = sel.selected.clone();
                if new_sel.contains(region_id.as_str()) {
                    new_sel.remove(region_id.as_str());
                } else {
                    new_sel.insert(region_id.clone());
                }
                event = sel.set_selection(new_sel);
            } else if mods.shift {
                let mut new_sel = sel.selected.clone();
                new_sel.insert(region_id.clone());
                event = sel.set_selection(new_sel);
            } else if !sel.is_selected(region_id.as_str()) {
                event = sel.set_selection(single(region_id.clone()));
            }
            *ia = InteractionState {
                hovered,
                active: Some(region_id),
                drag_start: Some(content_pt),
                did_drag: false,
            };
            event
        },
        None => {
            if tool == CanvasTool::Select || mods.shift {
                let additive = mods.shift;
                let base_selection = if additive {
                    sel.selected.clone()
                } else {
                    IdSet::new()
                };
                sel.marquee = Some(
                    MarqueeState { anchor: content_pt, current: content_pt, additive, base_selection },
                );
            }
            let mut event = None;
            if !mods.shift && !mods.meta && !mods.ctrl && tool != CanvasTool::Select {
                event = sel.set_selection(IdSet::new());
            }
            *ia = InteractionState {
                hovered,
                active: None,
                drag_start: Some(content_pt),
                did_drag: false,
            };
            event
        },
    }
}

/// Handle a pointer move over region `hit` (or the background): records
/// it as hovered and returns whether the hovered region changed.
pub fn pointer_move(ia: &mut InteractionState, hit: Option<String>) -> (changed: bool)
    ensures
        changed == (opt_id(old(ia).hovered) != opt_id(hit)),
        final(ia).hovered == hit,
        final(ia).active == old(ia).active,
        final(ia).drag_start == old(ia).drag_start,
        final(ia).did_drag == old(ia).did_drag,
{
    let changed = match (&ia.hovered, &hit) {
        (Some(a), Some(b)) => !(*a == *b),
        (None, None) => false,
        _ => true,
    };
    ia.hovered = hit;
    changed
}

/// What a pointer release brings about.
#[derive(Debug)]
pub struct PointerUpOutcome {
    /// The region clicked (pressed and released without a drag), if any.
    pub clicked: Option<String>,
    /// The selection change of a plain click inside a multi-selection,
    /// which narrows the selection to the clicked region.
    pub narrowed: Option<SelectionChangeEvent>,
    /// The change that a finished marquee made, measured from the
    /// selection the marquee started from.
    pub marquee_finished: Option<SelectionChangeEvent>,
}

/// Whether the press that a release ends was a click on a region: a
/// region was pressed and no drag followed.
pub open spec fn is_click(ia: InteractionState) -> bool {
    ia.active is Some && !ia.did_drag
}

/// Handle a pointer release.
///
/// A click on a region is reported; a plain click inside a selection of
/// more than one region narrows it to the clicked region. An active
/// marquee ends and its overall change (from its base selection to the
/// selection now) is reported. The active region and the drag start are
/// cleared; the hovered region is kept.
pub fn pointer_up(
    sel: &mut SelectionState,
    ia: &mut InteractionState,
    mods: Modifiers,
) -> (res: PointerUpOutcome)
    ensures
        res.clicked == (if is_click(*old(ia)) {
            old(ia).active
        } else {
            None
        }),
        ({
            let narrow = is_click(*old(ia)) && mods.plain() && old(sel).selected@.len() > 1;
            let after = if narrow {
                Set::<Seq<char>>::empty().insert(old(ia).active->0@)
            } else {
                old(sel).selected@
            };
            &&& final(sel).selected@ == after
            &&& (res.narrowed is Some <==> narrow)
            &&& (res.narrowed matches Some(e) ==> e.reports(old(sel).selected@, after))
            &&& (res.marquee_finished is Some <==> old(sel).marquee is Some)
            &&& (res.marquee_finished matches Some(e) ==> e.reports(
                old(sel).marquee->0.base_selection@,
                after,
            ))
        }),
        final(sel).marquee is None,
        final(ia).hovered == old(ia).hovered,
        final(ia).active is None,
        final(ia).drag_start is None,
        !final(ia).did_drag,
        mods.shift || mods.ctrl || mods.meta ==> final(sel).selected@ == old(sel).selected@
            && res.narrowed is None,
        old(ia).active is Some && !old(ia).did_drag && !mods.shift && !mods.ctrl && !mods.meta
            && old(sel).selected@.len() > 1 ==> final(sel).selected@
            == Set::<Seq<char>>::empty().insert(old(ia).active->0@)
            && (res.narrowed matches Some(e) && e.selected@ == final(sel).selected@),
        !(old(ia).active is Some && !old(ia).did_drag && !mods.shift && !mods.ctrl && !mods.meta
            && old(sel).selected@.len() > 1) ==> final(sel).selected@ == old(sel).selected@
            && res.narrowed is None,
        res.clicked == (if old(ia).active is Some && !old(ia).did_drag {
            old(ia).active
        } else {
            None
        }),
        old(sel).marquee matches Some(m) ==> (res.marquee_finished matches Some(e) && e.selected@
            == final(sel).selected@ && e.added@ == final(sel).selected@.difference(m.base_selection@)
            && e.removed@ == m.base_selection@.difference(final(sel).selected@)),
        old(sel).marquee is None ==> res.marquee_finished is None,
{
    let mut clicked = None;
    let mut narrowed = None;
    if ia.active.is_some() && !ia.did_drag {
        clicked = clone_opt_string(&ia.active);
        if !mods.shift && !mods.meta && !mods.ctrl {
            if let Some(id) = &ia.active {
                if sel.selected.len() > 1 {
                    proof {
                        let one = Set::<Seq<char>>::empty().insert(id@);
                        assert(one.len() == 1);
                        assert(one != sel.selected@);
                    }
                    narrowed = sel.set_selection(single(id.clone()));
                }
            }
        }
    }
    let mut marquee_finished = None;
    match sel.marquee.take() {
        Some(m) => {
            marquee_finished = Some(SelectionChangeEvent::between(&m.base_selection, &sel.selected));
        },
        None => {},
    }
    ia.active = None;
    ia.drag_start = None;
    ia.did_drag = false;
    PointerUpOutcome { clicked, narrowed, marquee_finished }
}

/// The gesture a drag performs.
#[derive(Clone, Copy, Debug, PartialEq, Eq, Structural)]
pub enum DragMode {
    /// A pressed region is dragged: the selected elements move.
    Element,
    /// A marquee is being drawn.
    Marquee,
    /// The background is dragged: the viewport pans.
    Pan,
}

/// Which gesture a drag event belongs to: an element drag while a region
/// is active, else a marquee drag while a marquee is open, else a pan.
pub fn drag_mode(sel: &SelectionState, ia: &InteractionState) -> (res: DragMode)
    ensures
        res == (if ia.active is Some {
            DragMode::Element
        } else if sel.marquee is Some {
            DragMode::Marquee
        } else {
            DragMode::Pan
        }),
{
    if ia.active.is_some() {
        DragMode::Element
    } else if sel.marquee.is_some() {
        DragMode::Marquee
    } else {
        DragMode::Pan
    }
}

/// The ids that an element drag moves, as character sequences: every
/// selected id in selection order, then the active region if it is not
/// selected.
pub open spec fn dragged_ids(selected: IdSet, active: Seq<char>) -> Seq<Seq<char>> {
    if selected@.contains(active) {
        selected.keys()
    } else {
        selected.keys().push(active)
    }
}

/// Handle an element drag to content point `content_pt`.
///
/// Returns the ids the drag callback is fired for (see `dragged_ids`) and
/// records `content_pt` as the start of the next incremental delta; the
/// drag is marked as having moved.
pub fn element_drag(
    sel: &SelectionState,
    ia: &mut InteractionState,
    content_pt: Point,
) -> (res: Vec<String>)
    requires
        old(ia).active is Some,
    ensures
        res@.map_values(|s: String| s@) == dragged_ids(sel.selected, old(ia).active->0@),
        res@.map_values(|s: String| s@) == (if sel.selected@.contains(old(ia).active->0@) {
            sel.selected.keys()
        } else {
            sel.selected.keys().push(old(ia).active->0@)
        }),
        final(ia).hovered == old(ia).hovered,
        final(ia).active == old(ia).active,
        final(ia).drag_start == Some(content_pt),
        final(ia).did_drag,
{
    let mut ids: Vec<String> = Vec::new();
    let n = sel.selected.len();
    let mut i: usize = 0;
    while i < n
        invariant
            n == sel.selected.keys().len(),
            i <= n,
            ids@.map_values(|s: String| s@) == sel.selected.keys().take(i as int),
        decreases n - i,
    {
        let id = sel.selected.get(i).clone();
        let ghost before = ids@;
        ids.push(id);
        proof {
            before.lemma_push_map_commute(|s: String| s@, id);
            assert(ids@.map_values(|s: String| s@) =~= sel.selected.keys().take(i + 1));
        }
        i = i + 1;
    }
    proof {
        assert(sel.selected.keys().take(n as int) =~= sel.selected.keys());
    }
    if let Some(active_id) = &ia.active {
        if !sel.selected.contains(active_id.as_str()) {
            let ghost before = ids@;
            let id = active_id.clone();
            ids.push(id);
            proof {
                before.lemma_push_map_commute(|s: String| s@, id);
            }
        }
    }
    ia.drag_start = Some(content_pt);
    ia.did_drag = true;
    ids
}

/// Handle a marquee drag to content point `content_pt`; `hits` are the
/// regions that the marquee rectangle now meets.
///
/// The marquee's current corner moves to `content_pt` and the selection
/// becomes the hits, joined to the marquee's base selection in additive
/// mode. Without an open marquee nothing changes.
pub fn marquee_drag(sel: &mut SelectionState, content_pt: Point, hits: IdSet)
    ensures
        match old(sel).marquee {
            Some(m) => {
                &&& (final(sel).marquee matches Some(f) && {
                    &&& f.anchor == m.anchor
                    &&& f.current == content_pt
                    &&& f.additive == m.additive
                    &&& f.base_selection == m.base_selection
                })
                &&& final(sel).selected@ == (if m.additive {
                    m.base_selection@.union(hits@)
                } else {
                    hits@
                })
            },
            None => {
                &&& final(sel).marquee is None
                &&& final(sel).selected == old(sel).selected
            },
        },
{
    match sel.marquee.take() {
        Some(mut m) => {
            m.current = content_pt;
            if m.additive {
                let mut selected = m.base_selection.clone();
                selected.extend(&hits);
                sel.selected = selected;
            } else {
                sel.selected = hits;
            }
            sel.marquee = Some(m);
        },
        None => {},
    }
}

/// What a drag end brings about.
#[derive(Debug, PartialEq, Eq)]
pub enum DragEnd {
    /// The drag of the given region ended; its drag-end callback fires.
    Element(String),
    /// A background pan ended; momentum may start.
    Momentum,
    /// A marquee drag ended; the marquee is finished on pointer release.
    Idle,
}

/// Handle a drag end.
///
/// An element drag ends: its region is returned and the active region
/// and drag start are cleared. Otherwise the interaction state stays, and
/// a pan (no open marquee) hands over to momentum.
pub fn drag_end(sel: &SelectionState, ia: &mut InteractionState) -> (res: DragEnd)
    ensures
        match old(ia).active {
            Some(id) => {
                &&& res == DragEnd::Element(id)
                &&& final(ia).hovered == old(ia).hovered
                &&& final(ia).active is None
                &&& final(ia).drag_start is None
                &&& !final(ia).did_drag
            },
            None => {
                &&& *final(ia) == *old(ia)
                &&& res == (if sel.marquee is None {
                    DragEnd::Momentum
                } else {
                    DragEnd::Idle
                })
            },
        },
{
    match ia.active.take() {
        Some(id) => {
            ia.drag_start = None;
            ia.did_drag = false;
            DragEnd::Element(id)
        },
        None => {
            if sel.marquee.is_none() {
                DragEnd::Momentum
            } else {
                DragEnd::Idle
            }
        },
    }
}

} // verus!

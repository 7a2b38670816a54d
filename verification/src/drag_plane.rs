//! The pannable surface and the drag/pan interaction state machine.
//!
//! Boxes live at local positions on a surface whose only persistent state
//! is a scroll offset; the renderer places each box at its local position
//! plus that offset. Once per tick the controller samples the pointer and
//! the hit-test results and then updates exactly one of: one dragged box's
//! local position, or the surface's scroll offset. A press is evaluated
//! only from the idle state, so box-dragging and surface-panning exclude
//! each other until the button is released.

use vstd::prelude::*;

use crate::geometry::{Vec2, shift_fits, shifted_spec, sum_fits};
use crate::search::{first_match, lemma_first_match_at, lemma_first_match_none};

verus! {

/// Scroll state of the pannable surface.
pub struct PlaneScroll {
    pub scroll_position: Vec2,
}

impl PlaneScroll {
    /// The screen position of a local point: the point plus the scroll
    /// offset, componentwise and without bounds.
    pub open spec fn absolute_position_spec(self, local: Vec2) -> (int, int) {
        (local.x + self.scroll_position.x, local.y + self.scroll_position.y)
    }

    /// Converts a local position to an absolute one: `local + scrollOffset`.
    pub fn absolute_position(&self, local: Vec2) -> (abs: Vec2)
        requires
            sum_fits(local, self.scroll_position),
        ensures
            (abs.x as int, abs.y as int) == self.absolute_position_spec(local),
    {
        local.plus(self.scroll_position)
    }

    /// Adds `delta` to the scroll offset.
    pub fn apply_scroll_delta(&mut self, delta: Vec2)
        requires
            sum_fits(old(self).scroll_position, delta),
        ensures
            final(self).scroll_position.x == old(self).scroll_position.x + delta.x,
            final(self).scroll_position.y == old(self).scroll_position.y + delta.y,
    {
        self.scroll_position = self.scroll_position.plus(delta);
    }
}

/// Hit-test result for a box or for the surface, sampled once per tick by
/// the surrounding layout system.
#[derive(Clone, Copy, Debug, PartialEq, Eq, Structural)]
pub enum HitState {
    Pressed,
    Hovered,
    NoHit,
}

/// One tick's pointer sample: the press and release edges, and the pointer
/// position (absent while the pointer is outside the window).
#[derive(Clone, Copy, Debug)]
pub struct PointerSample {
    pub pressed: bool,
    pub released: bool,
    pub position: Option<Vec2>,
}

/// A draggable box: a caller-chosen identity and a local position on the
/// surface.
#[derive(Clone, Copy, Debug, PartialEq, Eq, Structural)]
pub struct DragBox {
    pub id: u64,
    pub position: Vec2,
}

/// The controller's session state: at most one drag or pan session exists
/// at any time, created on a press edge and discarded on release.
#[derive(Clone, Copy, Debug, PartialEq, Eq, Structural)]
pub enum DragState {
    Idle,
    DraggingBox { target: u64, pointer_start: Vec2, box_start: Vec2 },
    PanningSurface { pointer_start: Vec2, scroll_start: Vec2 },
}

/// The drag/pan state machine; one instance governs the whole surface.
pub struct DragPanController {
    pub state: DragState,
}

/// The predicate "this hit state is a press".
pub open spec fn hit_pressed() -> spec_fn(HitState) -> bool {
    |h: HitState| h is Pressed
}

/// The predicate "this box carries id `target`".
pub open spec fn box_id_eq(target: u64) -> spec_fn(DragBox) -> bool {
    |b: DragBox| b.id == target
}

/// Index of the first box reported pressed this tick, in the fixed box
/// order; the documented tie-break when several are pressed at once.
pub open spec fn pressed_box(hits: Seq<HitState>) -> Option<int> {
    first_match(hits, hit_pressed())
}

/// Index of the first box carrying `target`, if it still exists.
pub open spec fn box_index(boxes: Seq<DragBox>, target: u64) -> Option<int> {
    first_match(boxes, box_id_eq(target))
}

/// The pointer position, or the origin while the pointer is unknown.
pub open spec fn pos_or_zero(position: Option<Vec2>) -> Vec2 {
    match position {
        Some(p) => p,
        None => Vec2 { x: 0, y: 0 },
    }
}

/// The session after this tick's press and release edges: a press is
/// evaluated only from `Idle` (first pressed box wins; else a pressed
/// surface starts a pan; else idle), and a release unconditionally ends
/// any session.
pub open spec fn session_state(state: DragState, sample: PointerSample, hits: Seq<HitState>,
    boxes: Seq<DragBox>, plane_hit: HitState, scroll: Vec2) -> DragState {
    let pressed_state = if sample.pressed && state is Idle {
        match pressed_box(hits) {
            Some(i) => DragState::DraggingBox {
                target: boxes[i].id,
                pointer_start: pos_or_zero(sample.position),
                box_start: boxes[i].position,
            },
            None => if plane_hit is Pressed {
                DragState::PanningSurface {
                    pointer_start: pos_or_zero(sample.position),
                    scroll_start: scroll,
                }
            } else {
                state
            },
        }
    } else {
        state
    };
    if sample.released {
        DragState::Idle
    } else {
        pressed_state
    }
}

/// Whether this tick discovers that the dragged box no longer exists.
pub open spec fn tick_lost(state: DragState, sample: PointerSample, hits: Seq<HitState>,
    boxes: Seq<DragBox>, plane_hit: HitState, scroll: Vec2) -> bool {
    match session_state(state, sample, hits, boxes, plane_hit, scroll) {
        DragState::DraggingBox { target, .. } => box_index(boxes, target) is None,
        _ => false,
    }
}

/// The controller state after the tick: the new session, except that a
/// drag whose target vanished is treated as released.
pub open spec fn tick_state(state: DragState, sample: PointerSample, hits: Seq<HitState>,
    boxes: Seq<DragBox>, plane_hit: HitState, scroll: Vec2) -> DragState {
    let s = session_state(state, sample, hits, boxes, plane_hit, scroll);
    match s {
        DragState::DraggingBox { target, .. } => if box_index(boxes, target) is None {
            DragState::Idle
        } else {
            s
        },
        _ => s,
    }
}

/// The boxes after the tick: in a drag session with a known pointer, the
/// target moves to `boxStart + (pointer - pointerStart)`; otherwise no box
/// moves.
pub open spec fn tick_boxes(state: DragState, sample: PointerSample, hits: Seq<HitState>,
    boxes: Seq<DragBox>, plane_hit: HitState, scroll: Vec2) -> Seq<DragBox> {
    match session_state(state, sample, hits, boxes, plane_hit, scroll) {
        DragState::DraggingBox { target, pointer_start, box_start } => {
            match (box_index(boxes, target), sample.position) {
                (Some(j), Some(p)) => boxes.update(
                    j,
                    DragBox { id: target, position: shifted_spec(box_start, p, pointer_start) },
                ),
                _ => boxes,
            }
        },
        _ => boxes,
    }
}

/// The scroll offset after the tick: in a pan session with a known pointer
/// it becomes `scrollStart + (pointer - pointerStart)`; otherwise it is
/// untouched.
pub open spec fn tick_scroll(state: DragState, sample: PointerSample, hits: Seq<HitState>,
    boxes: Seq<DragBox>, plane_hit: HitState, scroll: Vec2) -> Vec2 {
    match session_state(state, sample, hits, boxes, plane_hit, scroll) {
        DragState::PanningSurface { pointer_start, scroll_start } => {
            match sample.position {
                Some(p) => shifted_spec(scroll_start, p, pointer_start),
                None => scroll,
            }
        },
        _ => scroll,
    }
}

/// The one position update this tick computes stays within the coordinate
/// type.
pub open spec fn tick_fits(state: DragState, sample: PointerSample, hits: Seq<HitState>,
    boxes: Seq<DragBox>, plane_hit: HitState, scroll: Vec2) -> bool {
    match session_state(state, sample, hits, boxes, plane_hit, scroll) {
        DragState::DraggingBox { target, pointer_start, box_start } => {
            match (box_index(boxes, target), sample.position) {
                (Some(j), Some(p)) => shift_fits(box_start, p, pointer_start),
                _ => true,
            }
        },
        DragState::PanningSurface { pointer_start, scroll_start } => {
            match sample.position {
                Some(p) => shift_fits(scroll_start, p, pointer_start),
                None => true,
            }
        },
        DragState::Idle => true,
    }
}

/// Index of the first box whose hit state is pressed, if any.
fn find_pressed(hits: &Vec<HitState>) -> (r: Option<usize>)
    ensures
        match r {
            Some(i) => i < hits@.len() && pressed_box(hits@) == Some(i as int),
            None => pressed_box(hits@) is None,
        },
{
    let n: usize = hits.len();
    let mut j: usize = 0;
    while j < n
        invariant
            n == hits@.len(),
            j <= n,
            forall|k: int| 0 <= k < j ==> !(hits@[k] is Pressed),
        decreases n - j,
    {
        if matches!(hits[j], HitState::Pressed) {
            proof {
                assert(hit_pressed()(hits@[j as int]));
                lemma_first_match_at(hits@, hit_pressed(), j as int);
            }
            return Some(j);
        }
        j += 1;
    }
    proof {
        assert(forall|k: int| 0 <= k < hits@.len() ==> !(hit_pressed()(hits@[k])));
        lemma_first_match_none(hits@, hit_pressed());
    }
    None
}

/// Index of the first box carrying `target`, if it still exists.
fn find_box(boxes: &Vec<DragBox>, target: u64) -> (r: Option<usize>)
    ensures
        match r {
            Some(j) => j < boxes@.len() && box_index(boxes@, target) == Some(j as int),
            None => box_index(boxes@, target) is None,
        },
{
    let n: usize = boxes.len();
    let mut j: usize = 0;
    while j < n
        invariant
            n == boxes@.len(),
            j <= n,
            forall|k: int| 0 <= k < j ==> boxes@[k].id != target,
        decreases n - j,
    {
        if boxes[j].id == target {
            proof {
                assert(box_id_eq(target)(boxes@[j as int]));
                lemma_first_match_at(boxes@, box_id_eq(target), j as int);
            }
            return Some(j);
        }
        j += 1;
    }
    proof {
        assert(forall|k: int| 0 <= k < boxes@.len() ==> !(box_id_eq(target)(boxes@[k])));
        lemma_first_match_none(boxes@, box_id_eq(target));
    }
    None
}

/// The pointer position, or the origin while the pointer is unknown.
fn position_or_zero(position: Option<Vec2>) -> (p: Vec2)
    ensures
        p == pos_or_zero(position),
{
    match position {
        Some(p) => p,
        None => Vec2::zero(),
    }
}

impl DragPanController {
    /// A controller with no active session.
    pub fn new() -> (c: DragPanController)
        ensures
            c.state == DragState::Idle,
    {
        DragPanController { state: DragState::Idle }
    }

    /// One tick: evaluate the press and release edges, then apply the
    /// active session's movement. Updates at most one of the boxes or the
    /// scroll offset. Returns whether the dragged box was found missing,
    /// in which case the session is dropped and nothing moves.
    pub fn tick(&mut self, sample: PointerSample, box_hits: &Vec<HitState>,
        boxes: &mut Vec<DragBox>, plane_hit: HitState, plane: &mut PlaneScroll)
        -> (target_lost: bool)
        requires
            box_hits@.len() == old(boxes)@.len(),
            tick_fits(old(self).state, sample, box_hits@, old(boxes)@, plane_hit,
                old(plane).scroll_position),
        ensures
            final(self).state == tick_state(old(self).state, sample, box_hits@, old(boxes)@,
                plane_hit, old(plane).scroll_position),
            final(boxes)@ == tick_boxes(old(self).state, sample, box_hits@, old(boxes)@,
                plane_hit, old(plane).scroll_position),
            final(plane).scroll_position == tick_scroll(old(self).state, sample, box_hits@,
                old(boxes)@, plane_hit, old(plane).scroll_position),
            target_lost == tick_lost(old(self).state, sample, box_hits@, old(boxes)@, plane_hit,
                old(plane).scroll_position),
    {
        let ghost st0 = self.state;
        let ghost scroll0 = plane.scroll_position;
        if sample.pressed && matches!(self.state, DragState::Idle) {
            match find_pressed(box_hits) {
                Some(i) => {
                    let hit_box = boxes[i];
                    self.state = DragState::DraggingBox {
                        target: hit_box.id,
                        pointer_start: position_or_zero(sample.position),
                        box_start: hit_box.position,
                    };
                },
                None => {
                    if matches!(plane_hit, HitState::Pressed) {
                        self.state = DragState::PanningSurface {
                            pointer_start: position_or_zero(sample.position),
                            scroll_start: plane.scroll_position,
                        };
                    }
                },
            }
        }
        if sample.released {
            self.state = DragState::Idle;
        }
        proof {
            assert(self.state == session_state(st0, sample, box_hits@, boxes@, plane_hit,
                scroll0));
        }
        match self.state {
            DragState::DraggingBox { target, pointer_start, box_start } => {
                match find_box(boxes, target) {
                    Some(j) => {
                        match sample.position {
                            Some(p) => {
                                boxes[j] = DragBox {
                                    id: target,
                                    position: box_start.shifted(p, pointer_start),
                                };
                            },
                            None => {},
                        }
                        false
                    },
                    None => {
                        self.state = DragState::Idle;
                        true
                    },
                }
            },
            DragState::PanningSurface { pointer_start, scroll_start } => {
                match sample.position {
                    Some(p) => {
                        plane.scroll_position = scroll_start.shifted(p, pointer_start);
                    },
                    None => {},
                }
                false
            },
            DragState::Idle => false,
        }
    }
}

/// Applies the per-tick scroll-wheel delta: only while the pointer hovers
/// the surface. Independent of any drag session; it touches only the
/// scroll offset.
pub fn update_plane_scroll(plane: &mut PlaneScroll, plane_hit: HitState, scroll_delta: Vec2)
    requires
        plane_hit is Hovered ==> sum_fits(old(plane).scroll_position, scroll_delta),
    ensures
        plane_hit is Hovered ==> final(plane).scroll_position.x
            == old(plane).scroll_position.x + scroll_delta.x
            && final(plane).scroll_position.y == old(plane).scroll_position.y + scroll_delta.y,
        !(plane_hit is Hovered) ==> *final(plane) == *old(plane),
{
    if matches!(plane_hit, HitState::Hovered) {
        plane.apply_scroll_delta(scroll_delta);
    }
}

/// Coordinate transform law: the absolute position of a local point is the
/// point plus the scroll offset, and after applying a scroll delta every
/// absolute position shifts by exactly that delta.
pub proof fn lemma_coordinate_transform(surface: PlaneScroll, scrolled: PlaneScroll, local: Vec2,
    delta: Vec2)
    requires
        scrolled.scroll_position.x == surface.scroll_position.x + delta.x,
        scrolled.scroll_position.y == surface.scroll_position.y + delta.y,
    ensures
        surface.absolute_position_spec(local)
            == (local.x + surface.scroll_position.x, local.y + surface.scroll_position.y),
        scrolled.absolute_position_spec(local)
            == (local.x + surface.scroll_position.x + delta.x,
            local.y + surface.scroll_position.y + delta.y),
{
}

/// Drag/pan mutual exclusion law: a press is only evaluated from `Idle`.
/// While any session is active and the button is not released this tick,
/// the session value survives the tick unchanged; in particular no new box
/// drag can start during a pan, and no pan during a drag. The one way a
/// drag ends without a release is its target going missing.
pub proof fn lemma_drag_mutual_exclusion(state: DragState, sample: PointerSample,
    hits: Seq<HitState>, boxes: Seq<DragBox>, plane_hit: HitState, scroll: Vec2)
    requires
        !(state is Idle),
        !sample.released,
    ensures
        session_state(state, sample, hits, boxes, plane_hit, scroll) == state,
        state is PanningSurface ==> tick_state(state, sample, hits, boxes, plane_hit, scroll)
            == state,
        state is DraggingBox && !tick_lost(state, sample, hits, boxes, plane_hit, scroll)
            ==> tick_state(state, sample, hits, boxes, plane_hit, scroll) == state,
{
}

/// Single-effect law: one tick never moves a box and pans the surface at
/// the same time.
pub proof fn lemma_single_effect(state: DragState, sample: PointerSample, hits: Seq<HitState>,
    boxes: Seq<DragBox>, plane_hit: HitState, scroll: Vec2)
    ensures
        tick_boxes(state, sample, hits, boxes, plane_hit, scroll) != boxes
            ==> tick_scroll(state, sample, hits, boxes, plane_hit, scroll) == scroll,
        tick_scroll(state, sample, hits, boxes, plane_hit, scroll) != scroll
            ==> tick_boxes(state, sample, hits, boxes, plane_hit, scroll) == boxes,
{
}

} // verus!

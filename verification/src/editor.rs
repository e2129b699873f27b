//! The zone editor: two states and the gestures that move between them.
//!
//! A region is drawn by a drag. The gesture that starts the drag leaves the
//! editor holding the screen point where it began; the gesture that commits
//! it hands out the logical rectangle between that point and the point where
//! it ended; the gesture that cancels it hands out nothing. Every other
//! pairing of state and gesture leaves the editor as it was.

use crate::geometry::{region_between, spanned_region, Rect, ScreenPoint};
use vstd::prelude::*;

verus! {

/// What the editor is doing.
#[derive(Debug, Clone, Copy, PartialEq, Eq, Structural)]
pub enum EditorState {
    /// No region is being drawn.
    Idle,
    /// A region is being drawn from `anchor`, a point in screen space.
    CreatingRegion { anchor: ScreenPoint },
}

/// An input event, with its point in screen space where it has one.
#[derive(Debug, Clone, Copy, PartialEq, Eq, Structural)]
pub enum Gesture {
    /// Begin drawing a region at the point.
    Start(ScreenPoint),
    /// End the region at the point and keep it.
    Commit(ScreenPoint),
    /// Give up the region that is being drawn.
    Cancel,
    /// Rewind every sequencer. It means nothing to the editor.
    ResetAll,
}

/// What a gesture did to the editor: the state it is in now and, if a
/// region was committed, its rectangle in logical space.
#[derive(Debug, Clone, Copy)]
pub struct Transition {
    pub state: EditorState,
    pub committed: Option<Rect>,
}

impl EditorState {
    /// The state after `gesture`.
    pub open spec fn next(self, gesture: Gesture) -> EditorState {
        match (self, gesture) {
            (EditorState::Idle, Gesture::Start(point)) => EditorState::CreatingRegion {
                anchor: point,
            },
            (EditorState::CreatingRegion { .. }, Gesture::Commit(_)) => EditorState::Idle,
            (EditorState::CreatingRegion { .. }, Gesture::Cancel) => EditorState::Idle,
            _ => self,
        }
    }

    /// The rectangle that `gesture` commits, if it commits one: only a
    /// commit while a region is being drawn does.
    pub open spec fn committed(self, gesture: Gesture, scale: u32) -> Option<Rect> {
        match (self, gesture) {
            (EditorState::CreatingRegion { anchor }, Gesture::Commit(point)) => Some(
                spanned_region(anchor, point, scale),
            ),
            _ => None,
        }
    }

    /// The rectangle a region being drawn would have if it ended at
    /// `pointer`.
    pub open spec fn drag_region(self, pointer: ScreenPoint, scale: u32) -> Option<Rect> {
        match self {
            EditorState::CreatingRegion { anchor } => Some(spanned_region(anchor, pointer, scale)),
            EditorState::Idle => None,
        }
    }

    /// The gesture that the one key which both begins and ends a region
    /// stands for.
    pub open spec fn toggled(self, point: ScreenPoint) -> Gesture {
        match self {
            EditorState::Idle => Gesture::Start(point),
            EditorState::CreatingRegion { .. } => Gesture::Commit(point),
        }
    }

    /// Takes one gesture.
    ///
    /// `scale` is the factor from screen space to logical space. Idle, a
    /// start begins a region at its point. While a region is being drawn, a
    /// commit ends it and hands out the rectangle between the anchor and the
    /// commit's point, scaled to logical space, and a cancel ends it and
    /// hands out nothing. Any other gesture changes nothing.
    pub fn handle(self, gesture: Gesture, scale: u32) -> (t: Transition)
        ensures
            t.state == self.next(gesture),
            t.committed == self.committed(gesture, scale),
            t.committed matches Some(r) ==> r.representable() && t.state == EditorState::Idle,
    {
        match self {
            EditorState::Idle => match gesture {
                Gesture::Start(point) => Transition {
                    state: EditorState::CreatingRegion { anchor: point },
                    committed: None,
                },
                _ => Transition { state: self, committed: None },
            },
            EditorState::CreatingRegion { anchor } => match gesture {
                Gesture::Commit(point) => Transition {
                    state: EditorState::Idle,
                    committed: Some(region_between(anchor, point, scale)),
                },
                Gesture::Cancel => Transition { state: EditorState::Idle, committed: None },
                _ => Transition { state: self, committed: None },
            },
        }
    }

    /// The rectangle the region being drawn would have if it ended at
    /// `pointer`, for showing it while the drag goes on. Nothing when no
    /// region is being drawn.
    pub fn region_to(self, pointer: ScreenPoint, scale: u32) -> (r: Option<Rect>)
        ensures
            r == self.drag_region(pointer, scale),
    {
        match self {
            EditorState::CreatingRegion { anchor } => Some(region_between(anchor, pointer, scale)),
            EditorState::Idle => None,
        }
    }

    /// The gesture for a single key that both begins and ends a region: a
    /// start when idle, a commit while a region is being drawn.
    pub fn toggle(self, point: ScreenPoint) -> (g: Gesture)
        ensures
            g == self.toggled(point),
    {
        match self {
            EditorState::Idle => Gesture::Start(point),
            EditorState::CreatingRegion { .. } => Gesture::Commit(point),
        }
    }
}

/// Leaving the drawing state either commits a whole region or commits
/// nothing, and nothing is ever committed from any other state: a gesture
/// commits a rectangle exactly when it is a commit made while a region is
/// being drawn, and the rectangle is then the one between the anchor and
/// the commit's point.
pub proof fn lemma_commit_or_discard(state: EditorState, gesture: Gesture, scale: u32)
    ensures
        state.committed(gesture, scale) is Some <==> state is CreatingRegion
            && gesture is Commit,
        state.committed(gesture, scale) is Some ==> state.next(gesture) == EditorState::Idle,
        state is Idle && !(gesture is Start) ==> state.next(gesture) == state,
        state is CreatingRegion && !(gesture is Commit) && !(gesture is Cancel) ==> state.next(
            gesture,
        ) == state,
        state is CreatingRegion && state.next(gesture) != state ==> state.next(gesture)
            == EditorState::Idle,
{
}

} // verus!

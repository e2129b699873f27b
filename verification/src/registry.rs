//! The zone registry: the committed zones in the order they were made, and
//! the tick that drives them.
//!
//! The registry hands out sequencer identities itself. It counts up from
//! zero, one for each zone it takes in, so the identity of a zone is its
//! place in the registry and no two zones ever share one.

use crate::detector::{TriggerEvent, MAX_VELOCITY};
use crate::editor::{EditorState, Gesture};
use crate::frame::{Frame, FrameView, SampleError};
use crate::geometry::Rect;
use crate::sequencer::{Sequencer, SequencerView, DEFAULT_MS_PER_STEP, DEFAULT_STEP_COUNT};
use crate::zone::{Zone, ZoneView};
use vstd::prelude::*;

verus! {

/// What one tick did with one zone.
#[derive(Debug, Clone, Copy, PartialEq, Eq, Structural)]
pub enum ZoneOutcome {
    /// The zone's sequencer took no step: nothing was measured.
    Quiet,
    /// The sequencer stepped and its active region was measured.
    Triggered(TriggerEvent),
    /// The sequencer stepped but its active region could not be sampled.
    /// The step is spent all the same.
    Skipped(SampleError),
}

/// The zone that a commit of `bounds` adds to a registry that has handed
/// out `identity` zones so far.
pub open spec fn committed_zone(bounds: Rect, identity: u64) -> ZoneView {
    ZoneView {
        bounds,
        sequencer: SequencerView::fresh(
            identity,
            DEFAULT_STEP_COUNT as nat,
            DEFAULT_MS_PER_STEP as nat,
        ),
    }
}

/// A zone after one tick of `elapsed` milliseconds: its clock has moved and
/// its edge flag has been read.
pub open spec fn zone_after_tick(zone: ZoneView, elapsed: nat) -> ZoneView {
    ZoneView { sequencer: zone.sequencer.tick(elapsed), ..zone }
}

/// What one tick of `elapsed` milliseconds does with a zone, given the
/// current frame. The zone is looked at only if its clock stepped, and then
/// at the region that is active after the step.
pub open spec fn zone_outcome(zone: ZoneView, elapsed: nat, frame: FrameView) -> ZoneOutcome {
    let moved = zone.advance(elapsed);
    if !moved.sequencer.edge_flag {
        ZoneOutcome::Quiet
    } else {
        match moved.clear_edge().detection(frame) {
            Ok(event) => ZoneOutcome::Triggered(event),
            Err(error) => ZoneOutcome::Skipped(error),
        }
    }
}

/// The triggers among `outcomes`, in their order.
pub open spec fn triggered(outcomes: Seq<ZoneOutcome>) -> Seq<TriggerEvent>
    decreases outcomes.len(),
{
    if outcomes.len() == 0 {
        Seq::empty()
    } else {
        match outcomes.last() {
            ZoneOutcome::Triggered(event) => triggered(outcomes.drop_last()).push(event),
            _ => triggered(outcomes.drop_last()),
        }
    }
}

/// The zones of a registry are sound and numbered by their place.
pub open spec fn numbered(zones: Seq<ZoneView>) -> bool {
    forall|i: int|
        0 <= i < zones.len() ==> (#[trigger] zones[i]).wf() && zones[i].sequencer.identity == i
}

/// The committed zones, in the order of their commits.
#[derive(Debug)]
pub struct ZoneRegistry {
    zones: Vec<Zone>,
    next_identity: u64,
}

impl View for ZoneRegistry {
    type V = Seq<ZoneView>;

    closed spec fn view(&self) -> Seq<ZoneView> {
        Seq::new(self.zones@.len(), |i: int| self.zones@[i]@)
    }
}

impl ZoneRegistry {
    /// The identity that the next commit will hand out.
    pub closed spec fn next_identity(&self) -> nat {
        self.next_identity as nat
    }

    /// Holds of every registry at all times: its zones are sound, the
    /// identity of each is its place, and the next identity to hand out is
    /// the number of zones.
    #[verifier::type_invariant]
    pub open spec fn inv(self) -> bool {
        numbered(self@) && self.next_identity() == self@.len()
    }

    /// Moves the zones and the identity counter out, leaving a registry
    /// without zones behind.
    fn take(&mut self) -> (taken: (Vec<Zone>, u64))
        ensures
            taken.0@.len() == old(self)@.len(),
            forall|i: int| 0 <= i < taken.0@.len() ==> (#[trigger] taken.0@[i])@ == old(self)@[i],
            taken.1 == old(self)@.len(),
            numbered(old(self)@),
    {
        proof {
            use_type_invariant(&*self);
        }
        let mut taken = ZoneRegistry { zones: Vec::new(), next_identity: 0 };
        core::mem::swap(self, &mut taken);
        (taken.zones, taken.next_identity)
    }

    /// A registry without zones.
    pub fn new() -> (registry: ZoneRegistry)
        ensures
            registry@ == Seq::<ZoneView>::empty(),
            registry.next_identity() == 0,
    {
        let registry = ZoneRegistry { zones: Vec::new(), next_identity: 0 };
        assert(registry@ =~= Seq::<ZoneView>::empty());
        registry
    }

    /// The number of zones.
    pub fn len(&self) -> (n: usize)
        ensures
            n == self@.len(),
            n == self.next_identity(),
    {
        proof {
            use_type_invariant(self);
        }
        self.zones.len()
    }

    /// The zone at place `index`, or nothing if there are not that many.
    pub fn zone(&self, index: usize) -> (found: Option<&Zone>)
        ensures
            found is Some <==> index < self@.len(),
            found matches Some(z) ==> z@ == self@[index as int] && z@.wf()
                && z@.sequencer.identity == index,
    {
        proof {
            use_type_invariant(self);
        }
        if index < self.zones.len() {
            Some(&self.zones[index])
        } else {
            None
        }
    }

    /// Takes in a zone over `bounds` and returns the identity of its
    /// sequencer.
    ///
    /// The new zone goes to the end of the registry. Its sequencer is on the
    /// default grid, at rest, and its identity is the number of zones that
    /// were there before. A rectangle whose right or bottom edge lies beyond
    /// the largest logical coordinate is refused: nothing is returned, no
    /// identity is used up and the registry stays as it was.
    pub fn commit(&mut self, bounds: Rect) -> (identity: Option<u64>)
        ensures
            identity is Some <==> bounds.representable(),
            identity matches Some(id) ==> id == old(self)@.len() && final(self)@ == old(self)@.push(
                committed_zone(bounds, id),
            ),
            identity is None ==> final(self)@ == old(self)@,
            final(self).next_identity() == final(self)@.len(),
            numbered(final(self)@),
    {
        proof {
            use_type_invariant(&*self);
        }
        let id: u64 = self.next_identity;
        match Zone::new(bounds, Sequencer::new(id)) {
            Some(zone) => {
                let ghost before = self@;
                let (mut zones, _) = self.take();
                zones.push(zone);
                let count: usize = zones.len();
                assert(count == id + 1);
                *self = ZoneRegistry { zones, next_identity: id + 1 };
                assert(self@ =~= before.push(committed_zone(bounds, id)));
                Some(id)
            },
            None => None,
        }
    }

    /// Rewinds the sequencer of every zone. Pending edges stay pending.
    pub fn reset_all(&mut self)
        ensures
            final(self)@.len() == old(self)@.len(),
            forall|i: int|
                0 <= i < old(self)@.len() ==> #[trigger] final(self)@[i] == old(self)@[i].reset(),
            numbered(final(self)@),
    {
        proof {
            use_type_invariant(&*self);
        }
        let ghost before = self@;
        let (mut zones, next_identity) = self.take();
        let count: usize = zones.len();
        let mut i: usize = 0;
        while i < count
            invariant
                i <= count,
                count == before.len(),
                zones@.len() == count,
                numbered(before),
                forall|j: int| 0 <= j < i ==> (#[trigger] zones@[j])@ == before[j].reset(),
                forall|j: int| i <= j < count ==> (#[trigger] zones@[j])@ == before[j],
            decreases count - i,
        {
            zones[i].reset();
            i = i + 1;
        }
        *self = ZoneRegistry { zones, next_identity };
    }

    /// Takes one gesture on behalf of the editor and carries out what it
    /// asks of the registry.
    ///
    /// `state` is the editor's state and the result is its state after the
    /// gesture; `scale` is the factor from screen space to logical space. A
    /// commit that ends a region adds the zone over that region, with a
    /// fresh identity. The gesture that rewinds rewinds every sequencer. No
    /// other gesture touches the registry.
    pub fn handle_gesture(&mut self, state: EditorState, gesture: Gesture, scale: u32) -> (next:
        EditorState)
        ensures
            next == state.next(gesture),
            match state.committed(gesture, scale) {
                Some(bounds) => final(self)@ == old(self)@.push(
                    committed_zone(bounds, old(self)@.len() as u64),
                ),
                None => final(self)@.len() == old(self)@.len() && forall|i: int|
                    0 <= i < old(self)@.len() ==> #[trigger] final(self)@[i] == (if gesture
                        is ResetAll {
                        old(self)@[i].reset()
                    } else {
                        old(self)@[i]
                    }),
            },
            numbered(final(self)@),
    {
        proof {
            use_type_invariant(&*self);
        }
        let transition = state.handle(gesture, scale);
        match transition.committed {
            Some(bounds) => {
                let made = self.commit(bounds);
                assert(made is Some);
            },
            None => {
                match gesture {
                    Gesture::ResetAll => {
                        self.reset_all();
                    },
                    _ => {},
                }
            },
        }
        transition.state
    }

    /// Runs one tick over every zone, in the order of the registry.
    ///
    /// For each zone, `elapsed_ms` milliseconds are fed into its sequencer
    /// and the edge flag is read. If it was up, the region that is now
    /// active is sampled from `frame` and measured, and the zone's outcome
    /// is the trigger with the measured velocity; if the region cannot be
    /// sampled, because the frame holds no image or the region does not lie
    /// inside it, the outcome says which, and the step is spent. If the
    /// flag was down the zone is quiet. Time is fed into every sequencer
    /// whatever the frame holds.
    ///
    /// The result has one outcome for each zone, at the zone's place.
    pub fn tick(&mut self, elapsed_ms: u32, frame: &Frame) -> (outcomes: Vec<ZoneOutcome>)
        ensures
            final(self)@.len() == old(self)@.len(),
            outcomes@.len() == old(self)@.len(),
            forall|i: int|
                0 <= i < old(self)@.len() ==> #[trigger] final(self)@[i] == zone_after_tick(
                    old(self)@[i],
                    elapsed_ms as nat,
                ),
            forall|i: int|
                0 <= i < old(self)@.len() ==> #[trigger] outcomes@[i] == zone_outcome(
                    old(self)@[i],
                    elapsed_ms as nat,
                    frame@,
                ),
            forall|i: int|
                0 <= i < old(self)@.len() ==> (#[trigger] outcomes@[i] matches ZoneOutcome::Triggered(
                    event,
                ) ==> event.identity == i && event.velocity <= MAX_VELOCITY),
            numbered(final(self)@),
    {
        proof {
            use_type_invariant(&*self);
        }
        let ghost before = self@;
        let ghost elapsed = elapsed_ms as nat;
        let (mut zones, next_identity) = self.take();
        let count: usize = zones.len();
        let mut outcomes: Vec<ZoneOutcome> = Vec::new();
        let mut i: usize = 0;
        while i < count
            invariant
                i <= count,
                count == before.len(),
                elapsed == elapsed_ms,
                zones@.len() == count,
                numbered(before),
                outcomes@.len() == i,
                forall|j: int|
                    0 <= j < i ==> (#[trigger] zones@[j])@ == zone_after_tick(before[j], elapsed),
                forall|j: int|
                    0 <= j < i ==> #[trigger] outcomes@[j] == zone_outcome(
                        before[j],
                        elapsed,
                        frame@,
                    ),
                forall|j: int|
                    0 <= j < i ==> (#[trigger] outcomes@[j] matches ZoneOutcome::Triggered(event)
                        ==> event.identity == j && event.velocity <= MAX_VELOCITY),
                forall|j: int| i <= j < count ==> (#[trigger] zones@[j])@ == before[j],
            decreases count - i,
        {
            zones[i].advance(elapsed_ms);
            let fired: bool = zones[i].consume_edge();
            let outcome: ZoneOutcome = if fired {
                match zones[i].detect(frame) {
                    Ok(event) => ZoneOutcome::Triggered(event),
                    Err(error) => ZoneOutcome::Skipped(error),
                }
            } else {
                ZoneOutcome::Quiet
            };
            outcomes.push(outcome);
            i = i + 1;
        }
        *self = ZoneRegistry { zones, next_identity };
        outcomes
    }
}

/// The triggers of one tick as a stream for the event sink: the triggered
/// outcomes, in the order of the registry.
pub fn trigger_events(outcomes: &Vec<ZoneOutcome>) -> (events: Vec<TriggerEvent>)
    ensures
        events@ == triggered(outcomes@),
{
    let mut events: Vec<TriggerEvent> = Vec::new();
    let mut i: usize = 0;
    assert(outcomes@.take(0) =~= Seq::<ZoneOutcome>::empty());
    while i < outcomes.len()
        invariant
            i <= outcomes@.len(),
            events@ == triggered(outcomes@.take(i as int)),
        decreases outcomes@.len() - i,
    {
        assert(outcomes@.take(i + 1).drop_last() =~= outcomes@.take(i as int));
        match outcomes[i] {
            ZoneOutcome::Triggered(event) => {
                events.push(event);
            },
            _ => {},
        }
        i = i + 1;
    }
    assert(outcomes@.take(i as int) =~= outcomes@);
    events
}

} // verus!

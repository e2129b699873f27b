//! A zone: a rectangle of the frame with a step clock of its own.
//!
//! The clock's position selects one vertical slice of the rectangle, the
//! active region. Every slice but the last is as wide as the zone's width
//! divided by the number of steps, rounded down; the last slice also takes
//! what the division leaves over, so that the slices cover the zone from edge
//! to edge without gaps or overlaps.

use crate::detector::{count_matching, measure, velocity_of, TriggerEvent, MAX_VELOCITY};
use crate::frame::{Frame, FrameView, HsvPixel, SampleError, SubImageView};
use crate::geometry::{Point, Rect, Size};
use crate::sequencer::{Sequencer, SequencerView};
use vstd::arithmetic::div_mod::{lemma_div_pos_is_pos, lemma_fundamental_div_mod, lemma_mod_bound};
use vstd::prelude::*;

verus! {

/// The mathematical state of a zone.
pub struct ZoneView {
    pub bounds: Rect,
    pub sequencer: SequencerView,
}

impl ZoneView {
    /// The clock is at rest on its grid and the far edges of the rectangle
    /// are representable.
    pub open spec fn wf(self) -> bool {
        self.sequencer.wf() && self.bounds.representable()
    }

    /// The width of every slice but the last.
    pub open spec fn active_width(self) -> nat {
        self.bounds.width as nat / self.sequencer.step_count
    }

    /// The left edge of the slice for step `p`.
    pub open spec fn region_left(self, p: nat) -> int {
        self.bounds.x + self.active_width() * p
    }

    /// The width of the slice for step `p`. The last step takes the
    /// remainder of the division as well.
    pub open spec fn region_width(self, p: nat) -> nat {
        if p + 1 == self.sequencer.step_count {
            (self.bounds.width - self.active_width() * p) as nat
        } else {
            self.active_width()
        }
    }

    /// The first column to the right of the slice for step `p`.
    pub open spec fn region_right(self, p: nat) -> int {
        self.region_left(p) + self.region_width(p)
    }

    /// The slice for step `p` covers column `c`.
    pub open spec fn region_covers(self, p: nat, c: int) -> bool {
        self.region_left(p) <= c < self.region_right(p)
    }

    /// The left edge of the slice for the current step.
    pub open spec fn active_origin_x(self) -> int {
        self.region_left(self.sequencer.position)
    }

    /// The slice for the current step: the active region.
    pub open spec fn active_rect(self) -> Rect {
        Rect {
            x: self.active_origin_x() as i64,
            y: self.bounds.y,
            width: self.region_width(self.sequencer.position) as u64,
            height: self.bounds.height,
        }
    }

    /// The step whose slice covers column `c` of the zone.
    pub open spec fn step_at(self, c: int) -> nat {
        let last = (self.sequencer.step_count - 1) as nat;
        if self.active_width() == 0 {
            last
        } else {
            let p = ((c - self.bounds.x) / (self.active_width() as int)) as nat;
            if p < last {
                p
            } else {
                last
            }
        }
    }

    /// The pixels of `frame` that the active region covers, row by row.
    pub open spec fn active_pixels(self, frame: FrameView) -> Seq<HsvPixel> {
        (SubImageView { frame, rect: self.active_rect() }).pixels()
    }

    /// The velocity for the coverage of the active region in `frame`.
    pub open spec fn active_velocity(self, frame: FrameView) -> nat {
        velocity_of(count_matching(self.active_pixels(frame)), self.active_pixels(frame).len())
    }

    /// What looking at the zone's active region in `frame` gives: the
    /// trigger for the coverage measured there, or the reason why the region
    /// could not be sampled.
    pub open spec fn detection(self, frame: FrameView) -> Result<TriggerEvent, SampleError> {
        if !frame.available() {
            Err(SampleError::NoFrameAvailable)
        } else if !frame.holds(self.active_rect()) {
            Err(SampleError::OutOfBounds)
        } else {
            Ok(
                TriggerEvent {
                    identity: self.sequencer.identity,
                    velocity: self.active_velocity(frame) as u8,
                },
            )
        }
    }

    /// The zone after `elapsed` more milliseconds.
    pub open spec fn advance(self, elapsed: nat) -> ZoneView {
        ZoneView { sequencer: self.sequencer.advance(elapsed), ..self }
    }

    /// The zone after its edge flag has been read.
    pub open spec fn clear_edge(self) -> ZoneView {
        ZoneView { sequencer: self.sequencer.clear_edge(), ..self }
    }

    /// The zone after a rewind of its clock.
    pub open spec fn reset(self) -> ZoneView {
        ZoneView { sequencer: self.sequencer.reset(), ..self }
    }
}

/// A rectangle of the frame, fixed when the zone is made, and the clock that
/// walks across it.
#[derive(Debug)]
pub struct Zone {
    bounds: Rect,
    sequencer: Sequencer,
}

impl View for Zone {
    type V = ZoneView;

    closed spec fn view(&self) -> ZoneView {
        ZoneView { bounds: self.bounds, sequencer: self.sequencer@ }
    }
}

impl Zone {
    /// Holds of every zone at all times: the far edges of its rectangle are
    /// representable.
    #[verifier::type_invariant]
    pub open spec fn inv(self) -> bool {
        self@.bounds.representable()
    }

    /// A zone over `bounds`, driven by `sequencer`.
    ///
    /// A rectangle of zero width or height is accepted. The one rectangle
    /// that is not is one whose right or bottom edge lies beyond the largest
    /// logical coordinate.
    pub fn new(bounds: Rect, sequencer: Sequencer) -> (made: Option<Zone>)
        ensures
            made is Some <==> bounds.representable(),
            made matches Some(z) ==> z@ == (ZoneView { bounds, sequencer: sequencer@ }) && z@.wf(),
    {
        proof {
            use_type_invariant(&sequencer);
        }
        let right: i128 = bounds.x as i128 + bounds.width as i128;
        let bottom: i128 = bounds.y as i128 + bounds.height as i128;
        if right <= i64::MAX as i128 && bottom <= i64::MAX as i128 {
            Some(Zone { bounds, sequencer })
        } else {
            None
        }
    }

    /// The zone's rectangle.
    pub fn bounds(&self) -> (r: Rect)
        ensures
            r == self@.bounds,
            r.representable(),
    {
        proof {
            use_type_invariant(self);
        }
        self.bounds
    }

    /// The top left corner of the zone's rectangle.
    pub fn origin(&self) -> (p: Point)
        ensures
            p.x == self@.bounds.x,
            p.y == self@.bounds.y,
    {
        Point { x: self.bounds.x, y: self.bounds.y }
    }

    /// The extent of the zone's rectangle.
    pub fn size(&self) -> (s: Size)
        ensures
            s.width == self@.bounds.width,
            s.height == self@.bounds.height,
    {
        Size { width: self.bounds.width, height: self.bounds.height }
    }

    /// The zone's clock.
    pub fn sequencer(&self) -> (s: &Sequencer)
        ensures
            s@ == self@.sequencer,
            s@.wf(),
    {
        proof {
            use_type_invariant(&self.sequencer);
        }
        &self.sequencer
    }

    /// The width of every slice but the last: the zone's width divided by
    /// the number of steps, rounded down.
    pub fn active_width(&self) -> (w: u64)
        ensures
            w == self@.active_width(),
            w == self@.bounds.width as nat / self@.sequencer.step_count,
    {
        self.bounds.width / (self.sequencer.step_count() as u64)
    }

    /// The left edge of the slice for the current step.
    pub fn active_origin_x(&self) -> (x: i64)
        ensures
            x == self@.active_origin_x(),
            x == self@.bounds.x + self@.active_width() * self@.sequencer.position,
            x + self@.active_width() <= self@.bounds.right(),
    {
        proof {
            use_type_invariant(self);
            use_type_invariant(&self.sequencer);
            lemma_regions_in_order(self@, self@.sequencer.position);
        }
        let width: u64 = self.active_width();
        let position: u64 = self.sequencer.position() as u64;
        assert(width * position <= self.bounds.width) by {
            lemma_slices_fit(self@, position as nat);
        }
        let offset: u64 = width * position;
        (self.bounds.x as i128 + offset as i128) as i64
    }

    /// The slice for the current step: the active region.
    ///
    /// It has the zone's rows. It starts `position` slice widths right of
    /// the zone's left edge and is one slice width wide, except on the last
    /// step, where it reaches to the zone's right edge.
    pub fn active_rect(&self) -> (r: Rect)
        ensures
            r == self@.active_rect(),
            r.x == self@.active_origin_x(),
            r.y == self@.bounds.y,
            r.width == self@.region_width(self@.sequencer.position),
            r.height == self@.bounds.height,
            self@.bounds.x <= r.x,
            r.right() <= self@.bounds.right(),
            r.representable(),
    {
        proof {
            use_type_invariant(self);
            use_type_invariant(&self.sequencer);
            lemma_regions_in_order(self@, self@.sequencer.position);
        }
        let x: i64 = self.active_origin_x();
        let slice: u64 = self.active_width();
        let position: u32 = self.sequencer.position();
        let step_count: u32 = self.sequencer.step_count();
        let width: u64 = if position == step_count - 1 {
            assert(slice * position <= self.bounds.width) by {
                lemma_slices_fit(self@, position as nat);
            }
            self.bounds.width - slice * (position as u64)
        } else {
            slice
        };
        Rect { x, y: self.bounds.y, width, height: self.bounds.height }
    }

    /// Looks at the zone's active region in `frame`.
    ///
    /// The region is sampled from the frame, its coverage is measured, and
    /// the coverage is turned into a trigger that carries the identity of
    /// the zone's sequencer. Fails with `NoFrameAvailable` when the frame
    /// holds no image, and otherwise with `OutOfBounds` when the active
    /// region does not lie wholly inside the frame. The zone is not changed
    /// either way.
    pub fn detect(&self, frame: &Frame) -> (found: Result<TriggerEvent, SampleError>)
        ensures
            found == self@.detection(frame@),
            found matches Ok(event) ==> event.velocity == self@.active_velocity(frame@)
                && event.velocity <= MAX_VELOCITY,
    {
        let rect: Rect = self.active_rect();
        match frame.sample(rect) {
            Ok(sub) => {
                let coverage = measure(&sub);
                Ok(coverage.emit(self.sequencer.identity()))
            },
            Err(e) => Err(e),
        }
    }

    /// Feeds `elapsed_ms` milliseconds into the zone's clock. The rectangle
    /// stays as it is.
    pub fn advance(&mut self, elapsed_ms: u32)
        ensures
            final(self)@ == old(self)@.advance(elapsed_ms as nat),
            final(self)@.wf(),
        no_unwind
    {
        proof {
            use_type_invariant(&*self);
        }
        self.sequencer.advance(elapsed_ms);
    }

    /// Reads the edge flag of the zone's clock and lowers it.
    pub fn consume_edge(&mut self) -> (fired: bool)
        ensures
            fired == old(self)@.sequencer.edge_flag,
            final(self)@ == old(self)@.clear_edge(),
            final(self)@.wf(),
        no_unwind
    {
        proof {
            use_type_invariant(&*self);
        }
        self.sequencer.consume_edge()
    }

    /// Rewinds the zone's clock to the first step. A pending edge stays
    /// pending.
    pub fn reset(&mut self)
        ensures
            final(self)@ == old(self)@.reset(),
            final(self)@.wf(),
        no_unwind
    {
        proof {
            use_type_invariant(&*self);
        }
        self.sequencer.reset();
    }
}

/// The first `p` slices fit into the zone's width, for every step `p` on the
/// grid and for the step count itself.
proof fn lemma_slices_fit(z: ZoneView, p: nat)
    requires
        z.sequencer.step_count > 0,
        p <= z.sequencer.step_count,
    ensures
        z.active_width() * p <= z.bounds.width,
{
    let n = z.sequencer.step_count as int;
    let w = z.bounds.width as int;
    let a = z.active_width() as int;
    lemma_fundamental_div_mod(w, n);
    lemma_mod_bound(w, n);
    assert(a * p <= w) by (nonlinear_arith)
        requires
            w == n * a + w % n,
            0 <= w % n,
            0 <= a,
            0 <= p <= n,
    ;
}

/// The slice of every step lies inside the zone, and a slice ends where the
/// next one begins.
pub proof fn lemma_regions_in_order(z: ZoneView, p: nat)
    requires
        z.sequencer.step_count > 0,
        p < z.sequencer.step_count,
    ensures
        z.bounds.x <= z.region_left(p),
        z.region_left(p) + z.active_width() <= z.bounds.right(),
        z.region_right(p) <= z.bounds.right(),
        z.region_width(p) >= z.active_width(),
        p + 1 < z.sequencer.step_count ==> z.region_right(p) == z.region_left(p + 1),
        p + 1 == z.sequencer.step_count ==> z.region_right(p) == z.bounds.right(),
{
    let a = z.active_width() as int;
    lemma_slices_fit(z, p);
    lemma_slices_fit(z, p + 1);
    assert(a * (p + 1) == a * p + a) by (nonlinear_arith);
    assert(0 <= a * p) by (nonlinear_arith)
        requires
            0 <= a,
            0 <= p,
    ;
}

/// The slices tile the zone. The first begins at the zone's left edge and
/// the last ends at its right edge; every column of the zone lies in the
/// slice of exactly one step.
pub proof fn lemma_active_regions_tile(z: ZoneView)
    requires
        z.sequencer.step_count > 0,
    ensures
        z.region_left(0) == z.bounds.x,
        z.region_right((z.sequencer.step_count - 1) as nat) == z.bounds.right(),
        forall|p: nat|
            p + 1 < z.sequencer.step_count ==> #[trigger] z.region_right(p) == z.region_left(
                p + 1,
            ),
        forall|c: int|
            z.bounds.x <= c < z.bounds.right() ==> z.step_at(c) < z.sequencer.step_count
                && #[trigger] z.region_covers(z.step_at(c), c),
        forall|p: nat, q: nat, c: int|
            p < z.sequencer.step_count && q < z.sequencer.step_count && #[trigger] z.region_covers(
                p,
                c,
            ) && #[trigger] z.region_covers(q, c) ==> p == q,
        forall|p: nat, c: int|
            p < z.sequencer.step_count && #[trigger] z.region_covers(p, c) ==> z.bounds.x <= c
                < z.bounds.right(),
{
    let n = z.sequencer.step_count;
    let a = z.active_width() as int;
    lemma_regions_in_order(z, (n - 1) as nat);
    assert forall|p: nat| p + 1 < n implies #[trigger] z.region_right(p) == z.region_left(
        p + 1,
    ) by {
        lemma_regions_in_order(z, p);
    }
    assert forall|c: int| z.bounds.x <= c < z.bounds.right() implies z.step_at(c) < n
        && #[trigger] z.region_covers(z.step_at(c), c) by {
        lemma_step_at_covers(z, c);
    }
    assert forall|p: nat, q: nat, c: int|
        p < n && q < n && #[trigger] z.region_covers(p, c) && #[trigger] z.region_covers(
            q,
            c,
        ) implies p == q by {
        if p < q {
            lemma_regions_ascend(z, p, q);
        } else if q < p {
            lemma_regions_ascend(z, q, p);
        }
    }
    assert forall|p: nat, c: int| p < n && #[trigger] z.region_covers(p, c) implies z.bounds.x
        <= c < z.bounds.right() by {
        lemma_regions_in_order(z, p);
    }
}

/// A slice ends no later than any later slice begins.
proof fn lemma_regions_ascend(z: ZoneView, p: nat, q: nat)
    requires
        z.sequencer.step_count > 0,
        p < q < z.sequencer.step_count,
    ensures
        z.region_right(p) <= z.region_left(q),
{
    let a = z.active_width() as int;
    assert(a * (p + 1) <= a * q) by (nonlinear_arith)
        requires
            0 <= a,
            p + 1 <= q,
    ;
    assert(a * (p + 1) == a * p + a) by (nonlinear_arith);
}

/// The step that `step_at` names for a column of the zone is on the grid and
/// its slice covers the column.
proof fn lemma_step_at_covers(z: ZoneView, c: int)
    requires
        z.sequencer.step_count > 0,
        z.bounds.x <= c < z.bounds.right(),
    ensures
        z.step_at(c) < z.sequencer.step_count,
        z.region_covers(z.step_at(c), c),
{
    let n = z.sequencer.step_count as int;
    let a = z.active_width() as int;
    let last = (n - 1) as nat;
    let d = c - z.bounds.x;
    lemma_regions_in_order(z, last);
    if a == 0 {
        assert(a * last == 0) by (nonlinear_arith)
            requires
                a == 0,
        ;
    } else {
        let k = d / a;
        lemma_fundamental_div_mod(d, a);
        lemma_mod_bound(d, a);
        lemma_div_pos_is_pos(d, a);
        if k < last {
            lemma_regions_in_order(z, k as nat);
            assert(a * (k + 1) == a * k + a) by (nonlinear_arith);
        } else {
            assert(a * last <= a * k) by (nonlinear_arith)
                requires
                    0 <= a,
                    last <= k,
            ;
        }
    }
}

} // verus!

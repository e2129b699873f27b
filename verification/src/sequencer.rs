//! The per-zone step clock.
//!
//! A sequencer turns elapsed wall-clock time into positions on a fixed grid
//! of steps. Time that does not fill a whole step is carried to the next
//! update, so no step is missed or counted twice however the elapsed time is
//! cut into updates. Crossing a step boundary raises an edge flag that stays
//! up until it is read once.

use vstd::arithmetic::div_mod::{
    lemma_add_mod_noop, lemma_basic_div, lemma_div_by_self, lemma_div_non_zero,
    lemma_div_pos_is_pos, lemma_fundamental_div_mod, lemma_fundamental_div_mod_converse,
    lemma_mod_add_multiples_vanish, lemma_mod_bound, lemma_mod_self_0, lemma_mod_twice,
    lemma_small_mod,
};
use vstd::prelude::*;

verus! {

/// Number of steps of a sequencer on the default grid.
pub const DEFAULT_STEP_COUNT: u32 = 16;

/// Length of one step on the default grid, in milliseconds.
pub const DEFAULT_MS_PER_STEP: u32 = 250;

/// The mathematical state of a sequencer.
pub struct SequencerView {
    pub step_count: nat,
    pub position: nat,
    pub accumulated_time_ms: nat,
    pub ms_per_step: nat,
    pub edge_flag: bool,
    pub identity: u64,
}

impl SequencerView {
    /// A sequencer that has just been made: at rest on the first step, with
    /// no edge pending.
    pub open spec fn fresh(identity: u64, step_count: nat, ms_per_step: nat) -> SequencerView {
        SequencerView {
            step_count,
            position: 0,
            accumulated_time_ms: 0,
            ms_per_step,
            edge_flag: false,
            identity,
        }
    }

    /// The grid is not empty and the position lies on it.
    pub open spec fn on_grid(self) -> bool {
        &&& self.step_count > 0
        &&& self.ms_per_step > 0
        &&& self.position < self.step_count
    }

    /// A state at rest between updates: on the grid, with less than one step
    /// of time pending.
    pub open spec fn wf(self) -> bool {
        &&& self.on_grid()
        &&& self.accumulated_time_ms < self.ms_per_step
    }

    /// How many step boundaries are crossed when `elapsed` more milliseconds
    /// arrive.
    pub open spec fn steps_due(self, elapsed: nat) -> nat {
        (self.accumulated_time_ms + elapsed) / self.ms_per_step
    }

    /// The state after `elapsed` more milliseconds: every boundary crossed
    /// moves the position by one, the remainder stays pending, and the edge
    /// flag is up if it was up before or at least one boundary was crossed.
    pub open spec fn advance(self, elapsed: nat) -> SequencerView {
        SequencerView {
            position: (self.position + self.steps_due(elapsed)) % self.step_count,
            accumulated_time_ms: (self.accumulated_time_ms + elapsed) % self.ms_per_step,
            edge_flag: self.edge_flag || self.steps_due(elapsed) > 0,
            ..self
        }
    }

    /// The state after the edge flag has been read.
    pub open spec fn clear_edge(self) -> SequencerView {
        SequencerView { edge_flag: false, ..self }
    }

    /// The state after a rewind: back at the first step with no time pending.
    /// A pending edge stays pending.
    pub open spec fn reset(self) -> SequencerView {
        SequencerView { position: 0, accumulated_time_ms: 0, ..self }
    }

    /// The state with `elapsed` more milliseconds pending and no step taken
    /// for them yet.
    pub open spec fn add_time(self, elapsed: nat) -> SequencerView {
        SequencerView { accumulated_time_ms: self.accumulated_time_ms + elapsed, ..self }
    }

    /// A single step: one step interval of pending time is used up, the
    /// position moves by one and the edge flag goes up.
    pub open spec fn step(self) -> SequencerView {
        SequencerView {
            position: (self.position + 1) % self.step_count,
            accumulated_time_ms: (self.accumulated_time_ms - self.ms_per_step) as nat,
            edge_flag: true,
            ..self
        }
    }

    /// Takes single steps for as long as a whole step interval is pending.
    pub open spec fn settle(self) -> SequencerView
        decreases self.accumulated_time_ms,
    {
        if self.ms_per_step > 0 && self.accumulated_time_ms >= self.ms_per_step {
            self.step().settle()
        } else {
            self
        }
    }

    /// The state after one tick: an update, then a read of the edge flag.
    pub open spec fn tick(self, elapsed: nat) -> SequencerView {
        self.advance(elapsed).clear_edge()
    }

    /// The state after one tick for each entry of `elapsed`, in order.
    pub open spec fn run_ticks(self, elapsed: Seq<nat>) -> SequencerView
        decreases elapsed.len(),
    {
        if elapsed.len() == 0 {
            self
        } else {
            self.run_ticks(elapsed.drop_last()).tick(elapsed.last())
        }
    }

    /// The number of ticks, out of one tick for each entry of `elapsed`,
    /// whose read finds the edge flag up.
    pub open spec fn edges_in_run(self, elapsed: Seq<nat>) -> nat
        decreases elapsed.len(),
    {
        if elapsed.len() == 0 {
            0
        } else {
            self.edges_in_run(elapsed.drop_last()) + if self.run_ticks(
                elapsed.drop_last(),
            ).advance(elapsed.last()).edge_flag {
                1nat
            } else {
                0nat
            }
        }
    }

    /// The state after one update for each entry of `elapsed`, in order.
    pub open spec fn run(self, elapsed: Seq<nat>) -> SequencerView
        decreases elapsed.len(),
    {
        if elapsed.len() == 0 {
            self
        } else {
            self.run(elapsed.drop_last()).advance(elapsed.last())
        }
    }

    /// The number of steps taken, summed over one update for each entry of
    /// `elapsed`.
    pub open spec fn steps_in_run(self, elapsed: Seq<nat>) -> nat
        decreases elapsed.len(),
    {
        if elapsed.len() == 0 {
            0
        } else {
            self.steps_in_run(elapsed.drop_last()) + self.run(elapsed.drop_last()).steps_due(
                elapsed.last(),
            )
        }
    }
}

/// The sum of the entries of `elapsed`.
pub open spec fn total_elapsed(elapsed: Seq<nat>) -> nat
    decreases elapsed.len(),
{
    if elapsed.len() == 0 {
        0
    } else {
        total_elapsed(elapsed.drop_last()) + elapsed.last()
    }
}

/// A fixed-grid clock that moves one position per step interval and wraps
/// at its step count.
#[derive(Debug)]
pub struct Sequencer {
    step_count: u32,
    position: u32,
    accumulated_time_ms: u32,
    ms_per_step: u32,
    edge_flag: bool,
    identity: u64,
}

impl View for Sequencer {
    type V = SequencerView;

    closed spec fn view(&self) -> SequencerView {
        SequencerView {
            step_count: self.step_count as nat,
            position: self.position as nat,
            accumulated_time_ms: self.accumulated_time_ms as nat,
            ms_per_step: self.ms_per_step as nat,
            edge_flag: self.edge_flag,
            identity: self.identity,
        }
    }
}

impl Sequencer {
    /// Holds of every sequencer at all times: its state is at rest on its
    /// grid.
    #[verifier::type_invariant]
    pub open spec fn inv(self) -> bool {
        self@.wf()
    }

    /// A sequencer on the default grid, at rest on the first step.
    pub fn new(identity: u64) -> (s: Sequencer)
        ensures
            s@ == SequencerView::fresh(
                identity,
                DEFAULT_STEP_COUNT as nat,
                DEFAULT_MS_PER_STEP as nat,
            ),
            s@.wf(),
    {
        Sequencer {
            step_count: DEFAULT_STEP_COUNT,
            position: 0,
            accumulated_time_ms: 0,
            ms_per_step: DEFAULT_MS_PER_STEP,
            edge_flag: false,
            identity,
        }
    }

    /// A sequencer on a grid of `step_count` steps of `ms_per_step`
    /// milliseconds each, at rest on the first step.
    pub fn with_grid(identity: u64, step_count: u32, ms_per_step: u32) -> (s: Sequencer)
        requires
            step_count > 0,
            ms_per_step > 0,
        ensures
            s@ == SequencerView::fresh(identity, step_count as nat, ms_per_step as nat),
            s@.wf(),
    {
        Sequencer {
            step_count,
            position: 0,
            accumulated_time_ms: 0,
            ms_per_step,
            edge_flag: false,
            identity,
        }
    }

    /// Feeds `elapsed_ms` milliseconds into the clock.
    ///
    /// The position moves by as many steps as the pending time plus
    /// `elapsed_ms` holds, wrapping at the step count; what is left over stays
    /// pending. The edge flag goes up if at least one step was taken and is
    /// never lowered here.
    pub fn advance(&mut self, elapsed_ms: u32)
        ensures
            final(self)@ == old(self)@.advance(elapsed_ms as nat),
            final(self)@.wf(),
        no_unwind
    {
        proof {
            use_type_invariant(&*self);
        }
        let total: u64 = self.accumulated_time_ms as u64 + elapsed_ms as u64;
        let per_step: u64 = self.ms_per_step as u64;
        let steps: u64 = total / per_step;
        let pending: u64 = total % per_step;
        let position: u64 = (self.position as u64 + steps) % (self.step_count as u64);
        let edge_flag: bool = self.edge_flag || steps > 0;
        *self = Sequencer {
            step_count: self.step_count,
            position: position as u32,
            accumulated_time_ms: pending as u32,
            ms_per_step: self.ms_per_step,
            edge_flag,
            identity: self.identity,
        };
    }

    /// Reads the edge flag and lowers it.
    ///
    /// Returns `true` exactly when a step was taken since the flag was last
    /// read.
    pub fn consume_edge(&mut self) -> (fired: bool)
        ensures
            fired == old(self)@.edge_flag,
            final(self)@ == old(self)@.clear_edge(),
            final(self)@.wf(),
        no_unwind
    {
        proof {
            use_type_invariant(&*self);
        }
        let fired: bool = self.edge_flag;
        self.edge_flag = false;
        fired
    }

    /// Rewinds to the first step and drops the pending time.
    ///
    /// A rewind is not a read of the edge flag: an edge that was pending
    /// before the rewind is still pending after it.
    pub fn reset(&mut self)
        ensures
            final(self)@ == old(self)@.reset(),
            final(self)@.wf(),
        no_unwind
    {
        proof {
            use_type_invariant(&*self);
        }
        *self = Sequencer {
            step_count: self.step_count,
            position: 0,
            accumulated_time_ms: 0,
            ms_per_step: self.ms_per_step,
            edge_flag: self.edge_flag,
            identity: self.identity,
        };
    }

    /// The number of steps on the grid.
    pub fn step_count(&self) -> (n: u32)
        ensures
            n == self@.step_count,
            n > 0,
    {
        proof {
            use_type_invariant(self);
        }
        self.step_count
    }

    /// The current step, counted from zero.
    pub fn position(&self) -> (p: u32)
        ensures
            p == self@.position,
            p < self@.step_count,
    {
        proof {
            use_type_invariant(self);
        }
        self.position
    }

    /// The time that has arrived since the last step was taken, in
    /// milliseconds.
    pub fn accumulated_time_ms(&self) -> (t: u32)
        ensures
            t == self@.accumulated_time_ms,
            t < self@.ms_per_step,
    {
        proof {
            use_type_invariant(self);
        }
        self.accumulated_time_ms
    }

    /// The length of one step, in milliseconds.
    pub fn ms_per_step(&self) -> (t: u32)
        ensures
            t == self@.ms_per_step,
            t > 0,
    {
        proof {
            use_type_invariant(self);
        }
        self.ms_per_step
    }

    /// Whether a step was taken that has not been read yet. Looking does not
    /// lower the flag.
    pub fn edge_flag(&self) -> (up: bool)
        ensures
            up == self@.edge_flag,
    {
        self.edge_flag
    }

    /// The number this sequencer was created with.
    pub fn identity(&self) -> (id: u64)
        ensures
            id == self@.identity,
    {
        self.identity
    }
}

/// What `settle` arrives at, in closed form.
proof fn lemma_settle_closed_form(t: SequencerView)
    requires
        t.on_grid(),
    ensures
        t.settle() == (SequencerView {
            position: (t.position + t.accumulated_time_ms / t.ms_per_step) % t.step_count,
            accumulated_time_ms: t.accumulated_time_ms % t.ms_per_step,
            edge_flag: t.edge_flag || t.accumulated_time_ms >= t.ms_per_step,
            ..t
        }),
    decreases t.accumulated_time_ms,
{
    let n = t.step_count as int;
    let ms = t.ms_per_step as int;
    let acc = t.accumulated_time_ms as int;
    let p = t.position as int;
    if acc >= ms {
        let q = (acc - ms) / ms;
        lemma_settle_closed_form(t.step());
        lemma_fundamental_div_mod(acc - ms, ms);
        lemma_mod_bound(acc - ms, ms);
        let r = (acc - ms) % ms;
        assert(acc == (q + 1) * ms + r) by (nonlinear_arith)
            requires
                acc - ms == ms * q + r,
        ;
        lemma_fundamental_div_mod_converse(acc, ms, q + 1, r);
        lemma_add_mod_noop(p + 1, q, n);
        lemma_mod_twice(p + 1, n);
        lemma_add_mod_noop((p + 1) % n, q, n);
    } else {
        lemma_small_mod(t.accumulated_time_ms, t.ms_per_step);
        lemma_basic_div(acc, ms);
        lemma_small_mod(t.position, t.step_count);
    }
}

/// An update is the loop it stands for: add the elapsed time, then take
/// single steps while a whole step interval is pending.
pub proof fn lemma_advance_is_repeated_step(s: SequencerView, elapsed: nat)
    requires
        s.wf(),
    ensures
        s.advance(elapsed) == s.add_time(elapsed).settle(),
{
    lemma_settle_closed_form(s.add_time(elapsed));
    let ms = s.ms_per_step as int;
    let sum = (s.accumulated_time_ms + elapsed) as int;
    if sum >= ms {
        lemma_div_non_zero(sum, ms);
    } else {
        lemma_basic_div(sum, ms);
    }
}

/// An update leaves the sequencer at rest on its grid.
pub proof fn lemma_advance_wf(s: SequencerView, elapsed: nat)
    requires
        s.wf(),
    ensures
        s.advance(elapsed).wf(),
{
    lemma_mod_bound((s.position + s.steps_due(elapsed)) as int, s.step_count as int);
    lemma_mod_bound((s.accumulated_time_ms + elapsed) as int, s.ms_per_step as int);
}

/// Two updates in a row are one update of the summed time: the same state
/// results and the same number of steps is taken.
pub proof fn lemma_advance_twice(s: SequencerView, first: nat, second: nat)
    requires
        s.wf(),
    ensures
        s.advance(first).advance(second) == s.advance(first + second),
        s.steps_due(first) + s.advance(first).steps_due(second) == s.steps_due(first + second),
{
    let n = s.step_count as int;
    let ms = s.ms_per_step as int;
    let p = s.position as int;
    let x = (s.accumulated_time_ms + first) as int;
    let y = second as int;
    let q1 = x / ms;
    let r1 = x % ms;
    let q2 = (r1 + y) / ms;
    let r2 = (r1 + y) % ms;
    lemma_fundamental_div_mod(x, ms);
    lemma_fundamental_div_mod(r1 + y, ms);
    lemma_mod_bound(x, ms);
    lemma_mod_bound(r1 + y, ms);
    assert(x + y == (q1 + q2) * ms + r2) by (nonlinear_arith)
        requires
            x == ms * q1 + r1,
            r1 + y == ms * q2 + r2,
    ;
    lemma_fundamental_div_mod_converse(x + y, ms, q1 + q2, r2);
    lemma_div_pos_is_pos(x, ms);
    lemma_div_pos_is_pos(r1 + y, ms);
    lemma_add_mod_noop(p + q1, q2, n);
    lemma_mod_twice(p + q1, n);
    lemma_add_mod_noop((p + q1) % n, q2, n);
}

/// No step is missed and none is counted twice: however a span of time is
/// cut into updates, the steps taken add up to the whole steps that the time
/// pending at the start plus the span holds, and the sequencer ends in the
/// state that a single update of the whole span gives.
pub proof fn lemma_batching_invariance(s: SequencerView, elapsed: Seq<nat>)
    requires
        s.wf(),
    ensures
        s.run(elapsed).wf(),
        s.run(elapsed) == s.advance(total_elapsed(elapsed)),
        s.steps_in_run(elapsed) == (s.accumulated_time_ms + total_elapsed(elapsed))
            / s.ms_per_step,
    decreases elapsed.len(),
{
    if elapsed.len() == 0 {
        lemma_small_mod(s.accumulated_time_ms, s.ms_per_step);
        lemma_basic_div(s.accumulated_time_ms as int, s.ms_per_step as int);
        lemma_small_mod(s.position, s.step_count);
    } else {
        let head = elapsed.drop_last();
        lemma_batching_invariance(s, head);
        lemma_advance_twice(s, total_elapsed(head), elapsed.last());
        lemma_advance_wf(s, total_elapsed(elapsed));
    }
}

/// The position wraps: updates that take as many steps as the grid has, in
/// one update or spread over several, lead back to the position they
/// started from.
pub proof fn lemma_position_wraps(s: SequencerView, elapsed: Seq<nat>)
    requires
        s.wf(),
        s.steps_in_run(elapsed) == s.step_count,
    ensures
        s.run(elapsed).position == s.position,
{
    lemma_batching_invariance(s, elapsed);
    lemma_mod_add_multiples_vanish(s.position as int, s.step_count as int);
    lemma_small_mod(s.position, s.step_count);
}

/// An edge is read once: after the flag has been read, it is up again
/// exactly when the next update takes a step. A second read with no update
/// in between, or with updates that stay inside the current step, finds it
/// down.
pub proof fn lemma_edge_read_once(s: SequencerView, elapsed: nat)
    ensures
        !s.clear_edge().edge_flag,
        s.clear_edge().advance(elapsed).edge_flag == (s.steps_due(elapsed) > 0),
        s.clear_edge().advance(elapsed).clear_edge() == s.advance(elapsed).clear_edge(),
{
}

/// Reading the edge flag between updates changes nothing but the flag.
proof fn lemma_ticks_follow_updates(s: SequencerView, elapsed: Seq<nat>)
    requires
        !s.edge_flag,
    ensures
        s.run_ticks(elapsed) == s.run(elapsed).clear_edge(),
    decreases elapsed.len(),
{
    if elapsed.len() > 0 {
        lemma_ticks_follow_updates(s, elapsed.drop_last());
    }
}

/// Edges are fired once per step whatever the frame rate. Over any run of
/// ticks that starts with the flag down, a tick fires exactly when its
/// update takes a step, so no more ticks fire than steps are taken; and if
/// every tick brings less than one step interval of time, no tick takes two
/// steps at once and the ticks that fire are as many as the steps: the whole
/// steps that the time pending at the start plus the time of the run holds.
pub proof fn lemma_one_edge_per_step(s: SequencerView, elapsed: Seq<nat>)
    requires
        s.wf(),
        !s.edge_flag,
    ensures
        s.edges_in_run(elapsed) <= s.steps_in_run(elapsed),
        (forall|i: int| 0 <= i < elapsed.len() ==> #[trigger] elapsed[i] < s.ms_per_step)
            ==> s.edges_in_run(elapsed) == (s.accumulated_time_ms + total_elapsed(elapsed))
            / s.ms_per_step,
    decreases elapsed.len(),
{
    lemma_batching_invariance(s, elapsed);
    if elapsed.len() > 0 {
        let head = elapsed.drop_last();
        let ms = s.ms_per_step as int;
        lemma_one_edge_per_step(s, head);
        lemma_batching_invariance(s, head);
        lemma_ticks_follow_updates(s, head);
        let before = s.run(head);
        assert(s.run_ticks(head).advance(elapsed.last()).edge_flag == (before.steps_due(
            elapsed.last(),
        ) > 0));
        if forall|i: int| 0 <= i < elapsed.len() ==> #[trigger] elapsed[i] < s.ms_per_step {
            assert forall|i: int| 0 <= i < head.len() implies #[trigger] head[i]
                < s.ms_per_step by {
                assert(head[i] == elapsed[i]);
            }
            let sum = (before.accumulated_time_ms + elapsed.last()) as int;
            assert(elapsed[elapsed.len() - 1] < s.ms_per_step);
            assert(sum < 2 * ms);
            lemma_fundamental_div_mod(sum, ms);
            lemma_mod_bound(sum, ms);
            assert(sum / ms <= 1) by (nonlinear_arith)
                requires
                    sum == ms * (sum / ms) + sum % ms,
                    0 <= sum % ms,
                    sum < 2 * ms,
                    ms > 0,
            ;
        }
    }
}

/// After a rewind the sequencer is at rest on the first step, and an update
/// of exactly one step interval takes exactly one step.
pub proof fn lemma_reset_then_one_step(s: SequencerView)
    requires
        s.wf(),
    ensures
        s.reset().wf(),
        s.reset().position == 0,
        s.reset().accumulated_time_ms == 0,
        s.reset().steps_due(s.ms_per_step) == 1,
        s.reset().advance(s.ms_per_step).position == 1nat % s.step_count,
        s.reset().advance(s.ms_per_step).accumulated_time_ms == 0,
        s.reset().advance(s.ms_per_step).edge_flag,
{
    lemma_div_by_self(s.ms_per_step as int);
    lemma_mod_self_0(s.ms_per_step as int);
}

} // verus!

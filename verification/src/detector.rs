//! Colour coverage of a sub-image and the trigger it is turned into.
//!
//! A pixel matches when its hue, saturation and value all lie inside a fixed
//! inclusive range: a narrow band of low hues, a saturation above a floor and
//! any value. Coverage is the share of matching pixels. It is kept as the
//! exact pair of counts; a trigger carries it as a velocity from 0 to 127,
//! rounded to the nearest integer.

use crate::frame::{HsvPixel, SubImage};
use vstd::arithmetic::div_mod::{
    lemma_fundamental_div_mod, lemma_fundamental_div_mod_converse, lemma_mod_bound,
};
use vstd::prelude::*;

verus! {

/// Lowest hue that matches.
pub const HUE_LOW: u8 = 0;

/// Highest hue that matches.
pub const HUE_HIGH: u8 = 15;

/// Lowest saturation that matches.
pub const SATURATION_LOW: u8 = 25;

/// Highest saturation that matches.
pub const SATURATION_HIGH: u8 = 255;

/// Lowest value that matches.
pub const VALUE_LOW: u8 = 0;

/// Highest value that matches.
pub const VALUE_HIGH: u8 = 255;

/// The velocity of a trigger from a sub-image in which every pixel matches.
pub const MAX_VELOCITY: u8 = 127;

/// The pixel lies inside the target range, bounds included.
pub open spec fn matches_target(p: HsvPixel) -> bool {
    &&& HUE_LOW <= p.h <= HUE_HIGH
    &&& SATURATION_LOW <= p.s <= SATURATION_HIGH
    &&& VALUE_LOW <= p.v <= VALUE_HIGH
}

/// The number of pixels of `pixels` that lie inside the target range.
pub open spec fn count_matching(pixels: Seq<HsvPixel>) -> nat
    decreases pixels.len(),
{
    if pixels.len() == 0 {
        0
    } else {
        count_matching(pixels.drop_last()) + if matches_target(pixels.last()) {
            1nat
        } else {
            0nat
        }
    }
}

/// `coverage * MAX_VELOCITY` rounded to the nearest integer, halves upwards,
/// for the coverage `matching / total`. Without pixels the coverage is zero.
pub open spec fn velocity_of(matching: nat, total: nat) -> nat {
    if total == 0 {
        0
    } else {
        ((2 * MAX_VELOCITY * matching + total) / (2 * total) as int) as nat
    }
}

/// Whether the pixel lies inside the target range.
pub fn is_target(p: HsvPixel) -> (yes: bool)
    ensures
        yes == matches_target(p),
{
    HUE_LOW <= p.h && p.h <= HUE_HIGH && SATURATION_LOW <= p.s && p.s <= SATURATION_HIGH
        && VALUE_LOW <= p.v && p.v <= VALUE_HIGH
}

/// The mathematical content of a coverage: how many pixels matched, out of
/// how many.
pub struct CoverageView {
    pub matching: nat,
    pub total: nat,
}

impl CoverageView {
    /// No more pixels matched than there were.
    pub open spec fn wf(self) -> bool {
        self.matching <= self.total
    }

    /// The ratio is 0: nothing matched, or there was no pixel.
    pub open spec fn is_zero(self) -> bool {
        self.matching == 0
    }

    /// The ratio is 1: there were pixels and all of them matched.
    pub open spec fn is_full(self) -> bool {
        self.total > 0 && self.matching == self.total
    }

    /// The velocity that stands for this coverage.
    pub open spec fn velocity(self) -> nat {
        velocity_of(self.matching, self.total)
    }
}

/// The share of matching pixels of a sub-image, as the ratio of two counts.
/// A sub-image without pixels has coverage zero.
#[derive(Debug, Clone, Copy)]
pub struct Coverage {
    matching: u64,
    total: u64,
}

impl View for Coverage {
    type V = CoverageView;

    closed spec fn view(&self) -> CoverageView {
        CoverageView { matching: self.matching as nat, total: self.total as nat }
    }
}

/// A note for the event sink: which sequencer stepped, and how much of its
/// active region matched.
#[derive(Debug, Clone, Copy, PartialEq, Eq, Structural)]
pub struct TriggerEvent {
    pub identity: u64,
    pub velocity: u8,
}

impl Coverage {
    /// Holds of every coverage at all times: no more pixels matched than
    /// there were.
    #[verifier::type_invariant]
    pub open spec fn inv(self) -> bool {
        self@.wf()
    }

    /// The number of pixels that matched.
    pub fn matching(&self) -> (n: u64)
        ensures
            n == self@.matching,
            n <= self@.total,
    {
        proof {
            use_type_invariant(self);
        }
        self.matching
    }

    /// The number of pixels that were looked at.
    pub fn total(&self) -> (n: u64)
        ensures
            n == self@.total,
    {
        self.total
    }

    /// The coverage as a velocity: the ratio times `MAX_VELOCITY`, rounded
    /// to the nearest integer, halves upwards.
    pub fn velocity(&self) -> (v: u8)
        ensures
            v == self@.velocity(),
            v <= MAX_VELOCITY,
            self@.is_zero() ==> v == 0,
            self@.is_full() ==> v == MAX_VELOCITY,
    {
        proof {
            use_type_invariant(self);
            lemma_velocity_rounds(self@.matching, self@.total);
        }
        if self.total == 0 {
            0
        } else {
            let doubled: u128 = 2 * (MAX_VELOCITY as u128);
            assert(doubled * self.matching == 2 * MAX_VELOCITY * self@.matching && doubled
                * self.matching <= 254 * 0xffff_ffff_ffff_ffff) by (nonlinear_arith)
                requires
                    doubled == 254,
                    MAX_VELOCITY == 127,
                    self.matching == self@.matching,
                    self.matching <= 0xffff_ffff_ffff_ffff,
            ;
            let scaled: u128 = doubled * (self.matching as u128) + (self.total as u128);
            (scaled / (2 * (self.total as u128))) as u8
        }
    }

    /// The trigger that this coverage gives for the sequencer `identity`.
    pub fn emit(&self, identity: u64) -> (event: TriggerEvent)
        ensures
            event.identity == identity,
            event.velocity == self@.velocity(),
            event.velocity <= MAX_VELOCITY,
    {
        TriggerEvent { identity, velocity: self.velocity() }
    }
}

/// The velocity is the nearest integer to `MAX_VELOCITY * matching / total`:
/// it is off by at most one half, and a value exactly between two integers
/// goes to the upper one. It never exceeds `MAX_VELOCITY`, which it reaches
/// when every pixel matches, and it is zero when none does.
pub proof fn lemma_velocity_rounds(matching: nat, total: nat)
    requires
        matching <= total,
    ensures
        velocity_of(matching, total) <= MAX_VELOCITY,
        matching == 0 ==> velocity_of(matching, total) == 0,
        total > 0 && matching == total ==> velocity_of(matching, total) == MAX_VELOCITY,
        total > 0 ==> 2 * total * velocity_of(matching, total) <= 2 * MAX_VELOCITY * matching
            + total < 2 * total * (velocity_of(matching, total) + 1),
{
    if total > 0 {
        let x = (2 * MAX_VELOCITY * matching + total) as int;
        let d = (2 * total) as int;
        let v = x / d;
        assert(x == 254 * matching + total) by (nonlinear_arith)
            requires
                x == 2 * MAX_VELOCITY * matching + total,
                MAX_VELOCITY == 127,
        ;
        lemma_fundamental_div_mod(x, d);
        lemma_mod_bound(x, d);
        assert(d * v == 2 * total * v) by (nonlinear_arith)
            requires
                d == 2 * total,
        ;
        assert(2 * total * (v + 1) == 2 * total * v + d) by (nonlinear_arith)
            requires
                d == 2 * total,
        ;
        assert(v <= 127) by (nonlinear_arith)
            requires
                d * v <= x,
                x <= 255 * total,
                d == 2 * total,
                total > 0,
        ;
        assert(0 <= v) by (nonlinear_arith)
            requires
                d * (v + 1) > x,
                x >= 0,
                d > 0,
        ;
        if matching == 0 {
            assert(v == 0) by (nonlinear_arith)
                requires
                    d * v <= x,
                    x == total,
                    d == 2 * total,
                    total > 0,
                    0 <= v,
            ;
        }
        if matching == total {
            assert(v >= 127) by (nonlinear_arith)
                requires
                    d * (v + 1) > x,
                    x == 255 * total,
                    d == 2 * total,
                    total > 0,
            ;
        }
    }
}

/// Counting one more pixel: the count over the first `k + 1` pixels is the
/// count over the first `k`, plus one if pixel `k` matches.
proof fn lemma_count_next(pixels: Seq<HsvPixel>, k: int)
    requires
        0 <= k < pixels.len(),
    ensures
        count_matching(pixels.take(k + 1)) == count_matching(pixels.take(k)) + if matches_target(
            pixels[k],
        ) {
            1nat
        } else {
            0nat
        },
        count_matching(pixels.take(k + 1)) <= k + 1,
    decreases k,
{
    assert(pixels.take(k + 1).drop_last() =~= pixels.take(k));
    if k > 0 {
        lemma_count_next(pixels, k - 1);
    } else {
        assert(pixels.take(0).len() == 0);
    }
}

/// No more pixels match than there are, and all of them are counted when
/// every one matches.
pub proof fn lemma_count_bounds(pixels: Seq<HsvPixel>)
    ensures
        count_matching(pixels) <= pixels.len(),
        (forall|i: int| 0 <= i < pixels.len() ==> matches_target(#[trigger] pixels[i]))
            ==> count_matching(pixels) == pixels.len(),
        (forall|i: int| 0 <= i < pixels.len() ==> !matches_target(#[trigger] pixels[i]))
            ==> count_matching(pixels) == 0,
    decreases pixels.len(),
{
    if pixels.len() > 0 {
        let head = pixels.drop_last();
        lemma_count_bounds(head);
        assert forall|i: int| 0 <= i < head.len() implies head[i] == pixels[i] by {}
        if forall|i: int| 0 <= i < pixels.len() ==> matches_target(#[trigger] pixels[i]) {
            assert forall|i: int| 0 <= i < head.len() implies matches_target(
                #[trigger] head[i],
            ) by {
                assert(head[i] == pixels[i]);
            }
            assert(matches_target(pixels[pixels.len() - 1]));
        }
        if forall|i: int| 0 <= i < pixels.len() ==> !matches_target(#[trigger] pixels[i]) {
            assert forall|i: int| 0 <= i < head.len() implies !matches_target(
                #[trigger] head[i],
            ) by {
                assert(head[i] == pixels[i]);
            }
            assert(!matches_target(pixels[pixels.len() - 1]));
        }
    }
}

/// Measures how much of a sub-image lies inside the target range.
///
/// Every pixel of the sub-image is looked at once. The result holds the
/// number of pixels that match and the number of pixels there are. A
/// sub-image without pixels gives zero out of zero, which stands for the
/// coverage 0.
pub fn measure(sub: &SubImage<'_>) -> (coverage: Coverage)
    ensures
        coverage@.matching == count_matching(sub@.pixels()),
        coverage@.total == sub@.pixels().len(),
        coverage@.total == sub@.rect.area(),
        coverage@.wf(),
        sub@.rect.area() == 0 ==> coverage@.is_zero(),
        sub@.rect.area() > 0 && (forall|i: int|
            0 <= i < sub@.pixels().len() ==> matches_target(#[trigger] sub@.pixels()[i]))
            ==> coverage@.is_full(),
{
    proof {
        lemma_count_bounds(sub@.pixels());
    }
    let width: u32 = sub.width();
    let height: u32 = sub.height();
    let ghost pixels = sub@.pixels();
    let ghost w = width as int;
    let mut matching: u64 = 0;
    let mut row: u32 = 0;
    assert(pixels.take(0).len() == 0);
    assert(0 <= w * height <= 0xffff_fffe_0000_0001) by (nonlinear_arith)
        requires
            0 <= w <= 0xffff_ffff,
            0 <= height <= 0xffff_ffff,
    ;
    while row < height
        invariant
            row <= height,
            width == sub@.rect.width,
            height == sub@.rect.height,
            w == width,
            pixels == sub@.pixels(),
            pixels.len() == w * height,
            matching == count_matching(pixels.take(row * w)),
            matching <= row * w,
            row * w <= w * height <= 0xffff_fffe_0000_0001,
        decreases height - row,
    {
        let mut column: u32 = 0;
        assert((row + 1) * w == row * w + w && (row + 1) * w <= w * height) by (nonlinear_arith)
            requires
                row < height,
                0 <= w,
        ;
        while column < width
            invariant
                row < height,
                column <= width,
                width == sub@.rect.width,
                height == sub@.rect.height,
                w == width,
                pixels == sub@.pixels(),
                pixels.len() == w * height,
                matching == count_matching(pixels.take(row * w + column)),
                matching <= row * w + column,
                0 <= row * w,
                row * w + w <= w * height <= 0xffff_fffe_0000_0001,
            decreases width - column,
        {
            let p: HsvPixel = sub.fetch(column, row);
            proof {
                let i = row * w + column;
                lemma_fundamental_div_mod_converse(i, w, row as int, column as int);
                assert(pixels[i] == p);
                lemma_count_next(pixels, i);
            }
            if is_target(p) {
                matching = matching + 1;
            }
            column = column + 1;
        }
        row = row + 1;
    }
    proof {
        assert(height * w == w * height) by (nonlinear_arith);
        assert(pixels.take(height * w) =~= pixels);
    }
    let total: u64 = (width as u64) * (height as u64);
    Coverage { matching, total }
}

} // verus!

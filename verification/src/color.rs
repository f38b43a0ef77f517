//! Colours and the colour metric.
//!
//! The metric is Euclidean distance over the three colour channels. Every
//! decision the engine takes with it is a comparison of two distances, or of
//! a distance with a whole-number threshold, so the engine keeps the exact
//! square of the distance and compares squares: `d < t` holds exactly when
//! `d * d < t * t` for non-negative `d` and `t`.

use vstd::prelude::*;

verus! {

/// A colour: three 8-bit channels.
#[derive(Clone, Copy, Debug, PartialEq, Eq, Structural)]
pub struct Rgb {
    pub r: u8,
    pub g: u8,
    pub b: u8,
}

/// A pixel: a colour and its transparency channel (0 is fully transparent).
#[derive(Clone, Copy, Debug, PartialEq, Eq, Structural)]
pub struct Rgba {
    pub r: u8,
    pub g: u8,
    pub b: u8,
    pub a: u8,
}

/// The largest squared distance between two colours: `3 * 255 * 255`.
pub const MAX_SQUARED_DISTANCE: u32 = 195075;

/// The smallest threshold that every pair of colours is closer than.
pub const SATURATING_THRESHOLD: usize = 442;

/// The fully transparent pixel.
pub open spec fn transparent() -> Rgba {
    Rgba { r: 0, g: 0, b: 0, a: 0 }
}

/// The square of the Euclidean distance between `a` and `b`.
pub open spec fn squared_distance(a: Rgb, b: Rgb) -> int {
    (a.r - b.r) * (a.r - b.r) + (a.g - b.g) * (a.g - b.g) + (a.b - b.b) * (a.b - b.b)
}

/// Whether a distance whose square is `d2` is strictly less than `threshold`.
pub open spec fn closer_than(d2: int, threshold: int) -> bool {
    d2 < threshold * threshold
}

impl Rgba {
    /// The colour of the pixel, without its transparency channel.
    pub open spec fn rgb(self) -> Rgb {
        Rgb { r: self.r, g: self.g, b: self.b }
    }

    /// The colour of the pixel, without its transparency channel.
    pub fn color(&self) -> (c: Rgb)
        ensures
            c == self.rgb(),
    {
        Rgb { r: self.r, g: self.g, b: self.b }
    }
}

/// The square of the difference of two channel values.
fn channel_gap_squared(x: u8, y: u8) -> (s: u32)
    ensures
        s == (x - y) * (x - y),
        s <= 65025,
{
    let gap: u32 = if x >= y { (x - y) as u32 } else { (y - x) as u32 };
    assert(gap * gap == (x - y) * (x - y)) by (nonlinear_arith)
        requires
            gap == x - y || gap == y - x,
    ;
    assert(gap * gap <= 65025) by (nonlinear_arith)
        requires
            0 <= gap <= 255,
    ;
    gap * gap
}

/// Computes the square of the Euclidean distance between two colours.
pub fn calculate_squared_distance(color: &Rgb, target: &Rgb) -> (d2: u32)
    ensures
        d2 == squared_distance(*color, *target),
        d2 <= MAX_SQUARED_DISTANCE,
{
    channel_gap_squared(color.r, target.r) + channel_gap_squared(color.g, target.g)
        + channel_gap_squared(color.b, target.b)
}

/// The square of `threshold`, cut off at the square of
/// `SATURATING_THRESHOLD`. A squared distance lies below it exactly when the
/// distance is closer than `threshold`.
pub open spec fn squared_bound(threshold: int) -> int {
    if threshold >= SATURATING_THRESHOLD {
        SATURATING_THRESHOLD * SATURATING_THRESHOLD
    } else {
        threshold * threshold
    }
}

/// Below the squared bound means closer than the threshold.
pub proof fn lemma_squared_bound(d2: int, threshold: int)
    requires
        0 <= d2 <= MAX_SQUARED_DISTANCE,
        0 <= threshold,
    ensures
        d2 < squared_bound(threshold) <==> closer_than(d2, threshold),
{
    if threshold >= SATURATING_THRESHOLD {
        assert(threshold * threshold >= 195364) by (nonlinear_arith)
            requires
                threshold >= 442,
        ;
    }
}

/// Computes the bound that the square of a distance must stay below for the
/// distance to be strictly less than `threshold`.
pub fn squared_threshold(threshold: usize) -> (bound: u32)
    ensures
        bound == squared_bound(threshold as int),
        forall|d2: int|
            0 <= d2 <= MAX_SQUARED_DISTANCE ==> (d2 < bound <==> #[trigger] closer_than(
                d2,
                threshold as int,
            )),
{
    let capped: u32 = if threshold >= SATURATING_THRESHOLD {
        442
    } else {
        threshold as u32
    };
    assert(capped * capped <= 442 * 442) by (nonlinear_arith)
        requires
            0 <= capped <= 442,
    ;
    proof {
        assert forall|d2: int| 0 <= d2 <= MAX_SQUARED_DISTANCE implies (d2 < capped * capped
            <==> #[trigger] closer_than(d2, threshold as int)) by {
            lemma_squared_bound(d2, threshold as int);
        }
    }
    capped * capped
}

/// The distance from a colour to itself is zero.
pub proof fn lemma_distance_to_self(a: Rgb)
    ensures
        squared_distance(a, a) == 0,
{
}

/// The distance does not depend on the order of its arguments.
pub proof fn lemma_distance_symmetric(a: Rgb, b: Rgb)
    ensures
        squared_distance(a, b) == squared_distance(b, a),
{
    assert((a.r - b.r) * (a.r - b.r) == (b.r - a.r) * (b.r - a.r)) by (nonlinear_arith);
    assert((a.g - b.g) * (a.g - b.g) == (b.g - a.g) * (b.g - a.g)) by (nonlinear_arith);
    assert((a.b - b.b) * (a.b - b.b) == (b.b - a.b) * (b.b - a.b)) by (nonlinear_arith);
}

/// The distance is never negative, never above the largest distance, and is
/// zero exactly when the two colours agree on every channel.
pub proof fn lemma_distance_zero_iff_identical(a: Rgb, b: Rgb)
    ensures
        0 <= squared_distance(a, b) <= MAX_SQUARED_DISTANCE,
        squared_distance(a, b) == 0 <==> a == b,
{
    let dr = a.r - b.r;
    let dg = a.g - b.g;
    let db = a.b - b.b;
    assert(0 <= dr * dr <= 65025 && (dr * dr == 0 <==> dr == 0)) by (nonlinear_arith)
        requires
            -255 <= dr <= 255,
    ;
    assert(0 <= dg * dg <= 65025 && (dg * dg == 0 <==> dg == 0)) by (nonlinear_arith)
        requires
            -255 <= dg <= 255,
    ;
    assert(0 <= db * db <= 65025 && (db * db == 0 <==> db == 0)) by (nonlinear_arith)
        requires
            -255 <= db <= 255,
    ;
}

/// No distance is closer than a threshold of zero.
pub proof fn lemma_nothing_closer_than_zero(a: Rgb, b: Rgb)
    ensures
        !closer_than(squared_distance(a, b), 0),
{
    lemma_distance_zero_iff_identical(a, b);
}

/// Every distance is closer than a threshold of `SATURATING_THRESHOLD` or more.
pub proof fn lemma_everything_closer_than_saturating(a: Rgb, b: Rgb, threshold: int)
    requires
        threshold >= SATURATING_THRESHOLD,
    ensures
        closer_than(squared_distance(a, b), threshold),
{
    lemma_distance_zero_iff_identical(a, b);
    assert(threshold * threshold >= 195364) by (nonlinear_arith)
        requires
            threshold >= 442,
    ;
}

} // verus!

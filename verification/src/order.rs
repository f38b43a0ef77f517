//! An order on tiles by their average colour.

use std::cmp::Ordering;
use vstd::prelude::*;
use crate::catalog::Tile;
use crate::color::Rgb;

verus! {

/// Whether `a` comes before `b`: by the red channel, then by the green, then
/// by the blue.
pub open spec fn precedes(a: Rgb, b: Rgb) -> bool {
    ||| a.r < b.r
    ||| a.r == b.r && a.g < b.g
    ||| a.r == b.r && a.g == b.g && a.b < b.b
}

/// Compares two colours channel by channel: red first, then green, then
/// blue.
pub fn compare_colors(a: &Rgb, b: &Rgb) -> (order: Ordering)
    ensures
        (order matches Ordering::Less) <==> precedes(*a, *b),
        (order matches Ordering::Greater) <==> precedes(*b, *a),
        (order matches Ordering::Equal) <==> *a == *b,
{
    if a.r < b.r {
        Ordering::Less
    } else if a.r > b.r {
        Ordering::Greater
    } else if a.g < b.g {
        Ordering::Less
    } else if a.g > b.g {
        Ordering::Greater
    } else if a.b < b.b {
        Ordering::Less
    } else if a.b > b.b {
        Ordering::Greater
    } else {
        Ordering::Equal
    }
}

/// Compares two tiles by their average colours. Tiles of the same average
/// colour compare as equal, whatever else tells them apart.
pub fn compare_tiles(a: &Tile, b: &Tile) -> (order: Ordering)
    ensures
        (order matches Ordering::Less) <==> precedes(a.average(), b.average()),
        (order matches Ordering::Greater) <==> precedes(b.average(), a.average()),
        (order matches Ordering::Equal) <==> a.average() == b.average(),
{
    let first: Rgb = a.avg();
    let second: Rgb = b.avg();
    compare_colors(&first, &second)
}

/// Of two different colours exactly one comes before the other, and no
/// colour comes before itself.
pub proof fn lemma_precedes_is_total(a: Rgb, b: Rgb)
    ensures
        a != b ==> (precedes(a, b) <==> !precedes(b, a)),
        !precedes(a, a),
{
}

/// What comes before a colour that comes before a third comes before the
/// third.
pub proof fn lemma_precedes_is_transitive(a: Rgb, b: Rgb, c: Rgb)
    requires
        precedes(a, b),
        precedes(b, c),
    ensures
        precedes(a, c),
{
}

} // verus!

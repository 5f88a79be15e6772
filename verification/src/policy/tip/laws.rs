//! What the agreed tip promises, by counting the heights.

use vstd::prelude::*;

#[allow(unused_imports)]
use crate::policy::tip;

verus! {

/// The tip is a height that was given. Some height `middle` has at most half of
/// the heights below it and more than half up to it; the tip is at most six
/// blocks above that one, and no height that is at most six blocks above it is
/// higher than the tip.
pub proof fn tip_by_counting(heights: Seq<u64>, tip: u64) -> (middle: u64)
    requires
        tip::is_agreed_tip(heights, tip),
    ensures
        heights.contains(tip),
        heights.contains(middle),
        2 * heights.filter(|x: u64| x < middle).len() <= heights.len(),
        2 * heights.filter(|x: u64| x <= middle).len() > heights.len(),
        middle <= tip <= middle + 6,
        forall|i: int| 0 <= i < heights.len() && #[trigger] heights[i] <= middle + 6 ==> heights[i]
            <= tip,
{
    let k = choose|k: int| 0 <= k < heights.len() && heights[k] == tip;
    let middle = tip::median(heights);
    tip::median_survives(heights);
    tip::median_by_counting(heights, middle);
    tip::tip_leans_high(heights, tip);
    assert forall|i: int| 0 <= i < heights.len() && #[trigger] heights[i] <= middle
        + 6 implies heights[i] <= tip by {
        assert(tip::plausible(heights, heights[i]));
    }
    let below = |x: u64| x < middle;
    if middle > 0 {
        let under = (middle - 1) as u64;
        tip::median_by_counting(heights, under);
        assert(below =~= (|x: u64| x <= under));
    } else {
        nothing_below_zero(heights, below);
    }
    middle
}

proof fn nothing_below_zero(heights: Seq<u64>, below: spec_fn(u64) -> bool)
    requires
        forall|x: u64| !#[trigger] below(x),
    ensures
        heights.filter(below).len() == 0,
    decreases heights.len(),
{
    reveal(Seq::filter);
    if heights.len() > 0 {
        nothing_below_zero(heights.drop_last(), below);
    }
}

/// An honest majority out-votes liars, however high they go: where more than
/// half of the heights are at most `h`, the tip is at most six blocks above `h`.
pub proof fn liars_are_outvoted(heights: Seq<u64>, h: u64, tip: u64)
    requires
        tip::is_agreed_tip(heights, tip),
        2 * heights.filter(|x: u64| x <= h).len() > heights.len(),
    ensures
        tip <= h + 6,
{
    tip::majority_bounds_tip(heights, h, tip);
}

/// Nobody is late: where at least half of the heights are `h` or more, so is the
/// tip.
pub proof fn half_lifts_the_tip(heights: Seq<u64>, h: u64, tip: u64)
    requires
        tip::is_agreed_tip(heights, tip),
        2 * heights.filter(|x: u64| x < h).len() <= heights.len(),
    ensures
        tip >= h,
{
    let middle = tip_by_counting(heights, tip);
    if middle < h {
        more_below(heights, |x: u64| x <= middle, |x: u64| x < h);
    }
}

proof fn more_below(heights: Seq<u64>, p: spec_fn(u64) -> bool, q: spec_fn(u64) -> bool)
    requires
        forall|x: u64| #[trigger] p(x) ==> q(x),
    ensures
        heights.filter(p).len() <= heights.filter(q).len(),
    decreases heights.len(),
{
    reveal(Seq::filter);
    if heights.len() > 0 {
        more_below(heights.drop_last(), p, q);
    }
}

/// Where the heights are within six blocks of each other, the tip is the highest.
pub proof fn honest_heights_give_the_highest(heights: Seq<u64>, tip: u64)
    requires
        tip::is_agreed_tip(heights, tip),
        forall|i: int, j: int|
            0 <= i < heights.len() && 0 <= j < heights.len() ==> #[trigger] heights[i]
                <= #[trigger] heights[j] + 6,
    ensures
        heights.contains(tip),
        forall|i: int| 0 <= i < heights.len() ==> #[trigger] heights[i] <= tip,
{
    let middle = tip_by_counting(heights, tip);
    let j = choose|j: int| 0 <= j < heights.len() && heights[j] == middle;
    assert forall|i: int| 0 <= i < heights.len() implies #[trigger] heights[i] <= tip by {
        assert(heights[i] <= heights[j] + 6);
    }
}

/// With fewer than three heights the tip is the highest, whatever it is.
pub proof fn fewer_than_three_give_the_highest(heights: Seq<u64>, tip: u64)
    requires
        tip::is_agreed_tip(heights, tip),
        heights.len() < 3,
    ensures
        forall|i: int| 0 <= i < heights.len() ==> #[trigger] heights[i] <= tip,
{
    tip::two_cannot_outvote(heights, tip);
}

} // verus!

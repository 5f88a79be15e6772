//! Agreeing on the height of the chain's tip.

use vstd::prelude::*;

#[allow(unused_imports)]
use crate::policy::agreement;

pub mod laws;

verus! {

/// A tip more than this many blocks above the median is treated as a lying or
/// broken provider and ignored. Six blocks is far beyond honest propagation
/// skew, so this only excludes nonsense.
pub const MAX_TIP_SKEW: u64 = 6;

/// The heights in increasing order.
pub open spec fn in_order(heights: Seq<u64>) -> Seq<u64> {
    heights.sort_by(|x: u64, y: u64| x <= y)
}

/// The median: of an even number of heights, the higher of the two in the
/// middle.
pub open spec fn median(heights: Seq<u64>) -> u64 {
    in_order(heights)[heights.len() as int / 2]
}

/// The height is no outlier: not more than [`MAX_TIP_SKEW`] above the median.
pub open spec fn plausible(heights: Seq<u64>, h: u64) -> bool {
    h <= median(heights) + MAX_TIP_SKEW
}

/// `tip` is the highest of the heights that are no outliers.
pub open spec fn is_agreed_tip(heights: Seq<u64>, tip: u64) -> bool {
    &&& heights.contains(tip)
    &&& plausible(heights, tip)
    &&& forall|i: int|
        0 <= i < heights.len() && plausible(heights, #[trigger] heights[i]) ==> heights[i] <= tip
}

/// [`in_order`] holds the same heights, each no lower than those before it.
pub proof fn in_order_is_sorted(heights: Seq<u64>)
    ensures
        in_order(heights).len() == heights.len(),
        in_order(heights).to_multiset() == heights.to_multiset(),
        forall|i: int, j: int|
            0 <= i <= j < heights.len() ==> in_order(heights)[i] <= in_order(heights)[j],
        forall|h: u64| #[trigger] in_order(heights).contains(h) <==> heights.contains(h),
{
    broadcast use vstd::seq_lib::group_to_multiset_ensures;

    let leq = |x: u64, y: u64| x <= y;
    let s = in_order(heights);
    heights.lemma_sort_by_ensures(leq);
    assert(s.len() == s.to_multiset().len());
    assert(heights.len() == heights.to_multiset().len());
    assert forall|i: int, j: int| 0 <= i <= j < heights.len() implies s[i] <= s[j] by {
        if i < j {
            assert(leq(s[i], s[j]));
        }
    }
    assert forall|h: u64| #[trigger] s.contains(h) <==> heights.contains(h) by {
        assert(s.contains(h) <==> s.to_multiset().count(h) > 0);
        assert(heights.contains(h) <==> heights.to_multiset().count(h) > 0);
    }
}

/// Puts `heights` in increasing order.
fn sort(heights: &mut Vec<u64>)
    ensures
        final(heights)@ == in_order(old(heights)@),
{
    let ghost given = heights@;
    let ghost leq = |x: u64, y: u64| x <= y;
    let n: usize = heights.len();
    let mut i: usize = 0;
    while i < n
        invariant
            n == heights.len(),
            i <= n,
            heights@.to_multiset() == given.to_multiset(),
            forall|x: int, y: int| 0 <= x <= y < i ==> heights@[x] <= heights@[y],
        decreases n - i,
    {
        let h: u64 = heights[i];
        let ghost outer = heights@;
        let mut j: usize = i;
        while j > 0 && heights[j - 1] > h
            invariant
                n == heights.len() == outer.len(),
                i < n,
                j <= i,
                h == outer[i as int],
                forall|x: int| 0 <= x < j ==> heights@[x] == outer[x],
                forall|x: int| j < x <= i ==> heights@[x] == outer[x - 1] && outer[x - 1] > h,
                forall|x: int| i < x < n ==> heights@[x] == outer[x],
            decreases j,
        {
            let prev: u64 = heights[j - 1];
            heights.set(j, prev);
            j = j - 1;
        }
        heights.set(j, h);
        proof {
            assert(heights@ =~= outer.remove(i as int).insert(j as int, h));
            vstd::seq_lib::to_multiset_remove(outer, i as int);
            vstd::seq_lib::to_multiset_insert(outer.remove(i as int), j as int, h);
            assert(heights@.to_multiset() =~= outer.to_multiset()) by {
                outer.to_multiset_ensures();
                assert(outer.contains(outer[i as int]));
            }
        }
        i = i + 1;
    }
    proof {
        given.lemma_sort_by_ensures(leq);
        assert(vstd::relations::sorted_by(heights@, leq));
        vstd::seq_lib::lemma_sorted_unique(heights@, in_order(given), leq);
    }
}

/// The tip the providers agree on: drop anything more than [`MAX_TIP_SKEW`]
/// above the median, then take the highest of what is left.
///
/// The fold leans high on purpose. Being early costs a rejected retry; being
/// late costs a refund its race.
///
/// `None` only when nobody answered.
pub fn agreed_tip(heights: Vec<u64>) -> (r: Option<u64>)
    ensures
        match r {
            Some(tip) => is_agreed_tip(heights@, tip),
            None => heights.len() == 0,
        },
{
    let ghost given = heights@;
    let n: usize = heights.len();
    if n == 0 {
        return None;
    }
    let mut sorted = heights;
    sort(&mut sorted);
    proof {
        in_order_is_sorted(given);
    }
    let middle: u64 = sorted[n / 2];
    let limit: u64 = middle.saturating_add(MAX_TIP_SKEW);
    let mut k: usize = n - 1;
    while sorted[k] > limit
        invariant
            n / 2 <= k < n,
            n == sorted.len() == given.len(),
            sorted@ == in_order(given),
            limit == if median(given) + MAX_TIP_SKEW > u64::MAX {
                u64::MAX as int
            } else {
                median(given) + MAX_TIP_SKEW
            },
            forall|x: int| k < x < n ==> !plausible(given, #[trigger] sorted@[x]),
        decreases k,
    {
        k = k - 1;
    }
    proof {
        let s = in_order(given);
        assert(s.contains(s[k as int]));
        assert forall|i: int|
            0 <= i < given.len() && plausible(given, #[trigger] given[i]) implies given[i]
            <= s[k as int] by {
            assert(given.contains(given[i]));
            assert(s.contains(given[i]));
            let x = choose|x: int| 0 <= x < s.len() && s[x] == given[i];
            if x <= k {
                assert(s[x] <= s[k as int]);
            }
        }
    }
    Some(sorted[k])
}

/// How many of the heights are at most `h`.
pub open spec fn count_up_to(heights: Seq<u64>, h: u64) -> nat {
    heights.filter(|x: u64| x <= h).len()
}

/// In order, the heights that are at most `h` come first.
proof fn count_in_order(s: Seq<u64>, h: u64, k: int)
    requires
        forall|i: int, j: int| 0 <= i <= j < s.len() ==> s[i] <= s[j],
        0 <= k < s.len(),
    ensures
        s[k] <= h <==> count_up_to(s, h) > k,
    decreases s.len(),
{
    let p = |x: u64| x <= h;
    let front = s.drop_last();
    let n = s.len() - 1;
    assert(s =~= front.push(s[n]));
    front.lemma_filter_push(s[n], p);
    front.lemma_filter_len(p);
    if k < n {
        count_in_order(front, h, k);
        if s[n] <= h {
            assert(s[k] <= s[n]);
        }
    } else if n > 0 {
        if s[n] <= h {
            count_in_order(front, h, n - 1);
            assert(s[n - 1] <= s[n]);
        }
    } else {
        reveal(Seq::filter);
    }
}

/// The median is at most `h` exactly when more than half of the heights are.
pub proof fn median_by_counting(heights: Seq<u64>, h: u64)
    requires
        heights.len() > 0,
    ensures
        median(heights) <= h <==> 2 * count_up_to(heights, h) > heights.len(),
{
    in_order_is_sorted(heights);
    let s = in_order(heights);
    agreement::count_ignores_order(s, heights, |x: u64| x <= h);
    count_in_order(s, h, heights.len() as int / 2);
}

/// The median is one of the heights, and is no outlier: some height always
/// stands, so there is an agreed tip whenever there is a height.
pub proof fn median_survives(heights: Seq<u64>)
    requires
        heights.len() > 0,
    ensures
        heights.contains(median(heights)),
        plausible(heights, median(heights)),
{
    in_order_is_sorted(heights);
    let s = in_order(heights);
    assert(s.contains(s[heights.len() as int / 2]));
}

/// There is at most one agreed tip.
pub proof fn tip_is_unique(heights: Seq<u64>, s: u64, t: u64)
    requires
        is_agreed_tip(heights, s),
        is_agreed_tip(heights, t),
    ensures
        s == t,
{
    let i = choose|i: int| 0 <= i < heights.len() && heights[i] == s;
    let j = choose|j: int| 0 <= j < heights.len() && heights[j] == t;
    assert(heights[i] <= t && heights[j] <= s);
}

/// The tip leans high: it is no lower than the median, and no higher than
/// [`MAX_TIP_SKEW`] above it.
pub proof fn tip_leans_high(heights: Seq<u64>, tip: u64)
    requires
        is_agreed_tip(heights, tip),
    ensures
        median(heights) <= tip <= median(heights) + MAX_TIP_SKEW,
{
    let k = choose|k: int| 0 <= k < heights.len() && heights[k] == tip;
    median_survives(heights);
    let i = choose|i: int| 0 <= i < heights.len() && heights[i] == median(heights);
    assert(heights[i] <= tip);
}

/// An honest majority out-votes liars: where more than half of the heights are
/// at most `h`, the tip is at most [`MAX_TIP_SKEW`] above `h`.
pub proof fn majority_bounds_tip(heights: Seq<u64>, h: u64, tip: u64)
    requires
        is_agreed_tip(heights, tip),
        2 * count_up_to(heights, h) > heights.len(),
    ensures
        tip <= h + MAX_TIP_SKEW,
{
    let k = choose|k: int| 0 <= k < heights.len() && heights[k] == tip;
    median_by_counting(heights, h);
}

/// With fewer than three heights the outlier filter is a no-op: the tip is the
/// highest, whatever it is.
pub proof fn two_cannot_outvote(heights: Seq<u64>, tip: u64)
    requires
        is_agreed_tip(heights, tip),
        heights.len() < crate::policy::MIN_PROVIDERS_FOR_MAJORITY,
    ensures
        forall|i: int| 0 <= i < heights.len() ==> #[trigger] heights[i] <= tip,
{
    in_order_is_sorted(heights);
    let s = in_order(heights);
    let n = heights.len() as int;
    assert forall|i: int| 0 <= i < n implies #[trigger] heights[i] <= tip by {
        assert(heights.contains(heights[i]));
        assert(s.contains(heights[i]));
        let j = choose|j: int| 0 <= j < s.len() && s[j] == heights[i];
        assert(s[j] <= s[n / 2]);
        assert(plausible(heights, heights[i]));
    }
}

/// The order of the heights does not matter.
pub proof fn tip_order_does_not_matter(a: Seq<u64>, b: Seq<u64>, tip: u64)
    requires
        a.to_multiset() == b.to_multiset(),
        is_agreed_tip(a, tip),
    ensures
        is_agreed_tip(b, tip),
{
    broadcast use vstd::seq_lib::group_to_multiset_ensures;

    let leq = |x: u64, y: u64| x <= y;
    a.lemma_sort_by_ensures(leq);
    b.lemma_sort_by_ensures(leq);
    vstd::seq_lib::lemma_sorted_unique(in_order(a), in_order(b), leq);
    assert(a.len() == a.to_multiset().len() && b.len() == b.to_multiset().len());
    assert(a.to_multiset().count(tip) > 0);
    assert forall|i: int| 0 <= i < b.len() && plausible(b, #[trigger] b[i]) implies b[i] <= tip by {
        assert(b.contains(b[i]));
        assert(b.to_multiset().count(b[i]) > 0);
        assert(a.contains(b[i]));
        let j = choose|j: int| 0 <= j < a.len() && a[j] == b[i];
        assert(plausible(a, a[j]));
    }
}

} // verus!

//! When answers agree on a point, and where they first part ways.

use vstd::prelude::*;

verus! {

/// Of the first `n` items, those that speak to the point all say the same.
/// `point` gives what an item says, and nothing where it says nothing.
pub open spec fn agree_up_to<T, K>(s: Seq<T>, point: spec_fn(T) -> Option<K>, n: int) -> bool {
    forall|i: int, j: int|
        0 <= i < n && 0 <= j < n && point(s[i]) is Some && point(s[j]) is Some ==> point(
            #[trigger] s[i],
        ) == point(#[trigger] s[j])
}

/// All items that speak to the point say the same.
pub open spec fn agree<T, K>(s: Seq<T>, point: spec_fn(T) -> Option<K>) -> bool {
    agree_up_to(s, point, s.len() as int)
}

/// `j` is the first item that contradicts an earlier one, and `i` is one that
/// it contradicts.
pub open spec fn clash<T, K>(
    s: Seq<T>,
    point: spec_fn(T) -> Option<K>,
    i: int,
    j: int,
) -> bool {
    &&& 0 <= i < j < s.len()
    &&& point(s[i]) is Some
    &&& point(s[j]) is Some
    &&& point(s[i]) != point(s[j])
    &&& agree_up_to(s, point, j)
}

/// An item that does not speak to the point agrees with those before it.
pub proof fn silent_item_agrees<T, K>(s: Seq<T>, point: spec_fn(T) -> Option<K>, j: int)
    requires
        0 <= j < s.len(),
        point(s[j]) is None,
        agree_up_to(s, point, j),
    ensures
        agree_up_to(s, point, j + 1),
{
}

/// An item that says what an earlier one says agrees with all before it.
pub proof fn echo_agrees<T, K>(s: Seq<T>, point: spec_fn(T) -> Option<K>, i: int, j: int)
    requires
        0 <= i < j < s.len(),
        point(s[i]) is Some,
        point(s[i]) == point(s[j]),
        agree_up_to(s, point, j),
    ensures
        agree_up_to(s, point, j + 1),
{
    assert forall|m: int, n: int|
        0 <= m < j + 1 && 0 <= n < j + 1 && point(s[m]) is Some && point(
            s[n],
        ) is Some implies point(#[trigger] s[m]) == point(#[trigger] s[n]) by {
        if m < j {
            assert(point(s[m]) == point(s[i]));
        }
        if n < j {
            assert(point(s[n]) == point(s[i]));
        }
    }
}

/// `a` and `b` hold the same items, in whatever order and however often.
pub open spec fn same_items<T>(a: Seq<T>, b: Seq<T>) -> bool {
    forall|x: T|
        #![trigger a.contains(x)]
        #![trigger b.contains(x)]
        a.contains(x) <==> b.contains(x)
}

/// Where an item of `a` stands in `b`.
pub proof fn counterpart<T>(a: Seq<T>, b: Seq<T>, k: int) -> (i: int)
    requires
        same_items(a, b),
        0 <= k < a.len(),
    ensures
        0 <= i < b.len(),
        b[i] == a[k],
{
    assert(a.contains(a[k]));
    assert(b.contains(a[k]));
    choose|i: int| 0 <= i < b.len() && b[i] == a[k]
}

/// Whether items agree does not depend on their order.
pub proof fn agreement_ignores_order<T, K>(
    a: Seq<T>,
    b: Seq<T>,
    point: spec_fn(T) -> Option<K>,
)
    requires
        same_items(a, b),
    ensures
        agree(a, point) == agree(b, point),
{
    if agree(a, point) {
        agreement_of_part(a, b, point);
    }
    if agree(b, point) {
        assert(same_items(b, a));
        agreement_of_part(b, a, point);
    }
}

/// Items that stand among others that agree, agree too.
pub proof fn agreement_of_part<T, K>(a: Seq<T>, b: Seq<T>, point: spec_fn(T) -> Option<K>)
    requires
        agree(a, point),
        forall|x: T| #[trigger] b.contains(x) ==> a.contains(x),
    ensures
        agree(b, point),
{
    assert forall|i: int, j: int|
        0 <= i < b.len() && 0 <= j < b.len() && point(b[i]) is Some && point(
            b[j],
        ) is Some implies point(#[trigger] b[i]) == point(#[trigger] b[j]) by {
        assert(b.contains(b[i]) && b.contains(b[j]));
        let x = choose|x: int| 0 <= x < a.len() && a[x] == b[i];
        let y = choose|y: int| 0 <= y < a.len() && a[y] == b[j];
        assert(point(a[x]) == point(a[y]));
    }
}

/// Where the index `k` of `s` goes when one item is inserted at `at`.
pub open spec fn shifted(k: int, at: int) -> int {
    if k < at {
        k
    } else {
        k + 1
    }
}

/// An item that does not speak to the point changes no clash.
pub proof fn clash_of_insert<T, K>(
    s: Seq<T>,
    point: spec_fn(T) -> Option<K>,
    at: int,
    x: T,
    i: int,
    j: int,
)
    requires
        0 <= at <= s.len(),
        point(x) is None,
        clash(s, point, i, j),
    ensures
        clash(s.insert(at, x), point, shifted(i, at), shifted(j, at)),
{
    let t = s.insert(at, x);
    assert(t[shifted(i, at)] == s[i] && t[shifted(j, at)] == s[j]);
    assert forall|m: int, n: int|
        0 <= m < shifted(j, at) && 0 <= n < shifted(j, at) && point(t[m]) is Some && point(
            t[n],
        ) is Some implies point(#[trigger] t[m]) == point(#[trigger] t[n]) by {
        let p = if m < at {
            m
        } else {
            m - 1
        };
        let q = if n < at {
            n
        } else {
            n - 1
        };
        assert(m != at && n != at);
        assert(t[m] == s[p] && t[n] == s[q]);
    }
}

/// An item that does not speak to the point changes no agreement.
pub proof fn agreement_of_insert<T, K>(s: Seq<T>, point: spec_fn(T) -> Option<K>, at: int, x: T)
    requires
        0 <= at <= s.len(),
        point(x) is None,
        agree(s, point),
    ensures
        agree(s.insert(at, x), point),
{
    let t = s.insert(at, x);
    assert forall|m: int, n: int|
        0 <= m < t.len() && 0 <= n < t.len() && point(t[m]) is Some && point(
            t[n],
        ) is Some implies point(#[trigger] t[m]) == point(#[trigger] t[n]) by {
        let p = if m < at {
            m
        } else {
            m - 1
        };
        let q = if n < at {
            n
        } else {
            n - 1
        };
        assert(t[m] == s[p] && t[n] == s[q]);
    }
}

/// How many items have a property does not depend on their order.
pub proof fn count_ignores_order<T>(a: Seq<T>, b: Seq<T>, p: spec_fn(T) -> bool)
    requires
        a.to_multiset() == b.to_multiset(),
    ensures
        a.filter(p).len() == b.filter(p).len(),
    decreases a.len(),
{
    broadcast use vstd::seq_lib::group_to_multiset_ensures;

    assert(a.len() == a.to_multiset().len() && b.len() == b.to_multiset().len());
    if a.len() > 0 {
        let x = a.last();
        assert(a.to_multiset().count(x) > 0);
        assert(b.contains(x));
        let i = choose|i: int| 0 <= i < b.len() && b[i] == x;
        let front = a.drop_last();
        let rest = b.remove(i);
        assert(a =~= front.push(x));
        assert(b =~= rest.insert(i, x));
        vstd::seq_lib::to_multiset_insert(rest, i, x);
        assert(front.to_multiset() =~= a.to_multiset().remove(x));
        assert(rest.to_multiset() =~= b.to_multiset().remove(x));
        count_ignores_order(front, rest, p);
        front.lemma_filter_push(x, p);
        let left = b.take(i);
        let right = b.skip(i + 1);
        assert(rest =~= left + right);
        assert(b =~= left.push(x) + right);
        left.lemma_filter_push(x, p);
        Seq::filter_distributes_over_add(left, right, p);
        Seq::filter_distributes_over_add(left.push(x), right, p);
    } else {
        assert(b =~= a);
    }
}

/// The same items in another order are the same items.
pub proof fn reordering_keeps_items<T>(a: Seq<T>, b: Seq<T>)
    requires
        a.to_multiset() == b.to_multiset(),
    ensures
        same_items(a, b),
{
    broadcast use vstd::seq_lib::group_to_multiset_ensures;

    assert forall|x: T| a.contains(x) <==> b.contains(x) by {
        assert(a.contains(x) <==> a.to_multiset().count(x) > 0);
        assert(b.contains(x) <==> b.to_multiset().count(x) > 0);
    }
}

} // verus!

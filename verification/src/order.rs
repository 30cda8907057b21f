//! Ascending order of values.
use crate::value::Value;
use vstd::prelude::*;

verus! {

/// The key by which values are put in order: numbers ascend, and what is not a number follows
/// them.
pub open spec fn sort_key(value: Value) -> int {
    if value.nan() {
        i64::MAX as int
    } else {
        value.rank()
    }
}

/// Whether place `i` of `values` comes before place `j` in ascending order. Places with equal
/// values keep their order.
pub open spec fn precedes(values: Seq<Value>, i: int, j: int) -> bool {
    ||| sort_key(values[i]) < sort_key(values[j])
    ||| sort_key(values[i]) == sort_key(values[j]) && i < j
}

/// Whether `order` lists the places of `values`, each of them, in ascending order.
pub open spec fn is_ascending_order(values: Seq<Value>, order: Seq<int>) -> bool {
    &&& order.len() == values.len()
    &&& forall|k: int| 0 <= k < order.len() ==> 0 <= #[trigger] order[k] < values.len()
    &&& forall|i: int| 0 <= i < values.len() ==> #[trigger] order.contains(i)
    &&& forall|k: int, m: int|
        0 <= k < m < order.len() ==> #[trigger] precedes(values, order[k], order[m])
}

/// The places of `values` in ascending order. There is exactly one such list
/// ([`law_ascending_order_exists`] and [`law_ascending_order_is_unique`]).
pub open spec fn ascending_order(values: Seq<Value>) -> Seq<int> {
    choose|order: Seq<int>| is_ascending_order(values, order)
}

/// Two lists of the places of `values` in ascending order are the same list.
pub proof fn law_ascending_order_is_unique(values: Seq<Value>, a: Seq<int>, b: Seq<int>)
    requires
        is_ascending_order(values, a),
        is_ascending_order(values, b),
    ensures
        a == b,
{
    assert forall|k: int| 0 <= k < a.len() implies a[k] == b[k] by {
        lemma_same_place(values, a, b, k);
    }
    assert(a =~= b);
}

proof fn lemma_same_place(values: Seq<Value>, a: Seq<int>, b: Seq<int>, k: int)
    requires
        is_ascending_order(values, a),
        is_ascending_order(values, b),
        0 <= k < a.len(),
    ensures
        a[k] == b[k],
    decreases k,
{
    assert forall|j: int| 0 <= j < k implies a[j] == b[j] by {
        lemma_same_place(values, a, b, j);
    }
    assert(b.contains(a[k]));
    let m = choose|m: int| 0 <= m < b.len() && b[m] == a[k];
    assert(a.contains(b[k]));
    let n = choose|n: int| 0 <= n < a.len() && a[n] == b[k];
    if m < k {
        assert(precedes(values, a[m], a[k]));
    } else if n < k {
        assert(precedes(values, b[n], b[k]));
    } else if m > k && n > k {
        assert(precedes(values, b[k], b[m]));
        assert(precedes(values, a[k], a[n]));
    }
}

/// The places of any values can be listed in ascending order.
pub proof fn law_ascending_order_exists(values: Seq<Value>)
    ensures
        is_ascending_order(values, ascending_order(values)),
    decreases values.len(),
{
    if values.len() == 0 {
        assert(is_ascending_order(values, Seq::<int>::empty()));
    } else {
        let shorter = values.drop_last();
        law_ascending_order_exists(shorter);
        let order = ascending_order(shorter);
        let last = values.len() - 1;
        assert forall|k: int, m: int| 0 <= k < m < order.len() implies
            #[trigger] precedes(values, order[k], order[m]) by {
            assert(precedes(shorter, order[k], order[m]));
        }
        let at = lemma_insertion_point(values, order, order.len() as int);
        assert forall|i: int| 0 <= i < last implies #[trigger] order.contains(i) by {
            assert(shorter.len() == last);
        }
        lemma_inserted_order(values, order, at);
    }
}

/// The place where the last value belongs among the first `n` listed ones.
proof fn lemma_insertion_point(values: Seq<Value>, order: Seq<int>, n: int) -> (at: int)
    requires
        values.len() > 0,
        0 <= n <= order.len(),
        forall|k: int| 0 <= k < order.len() ==> 0 <= #[trigger] order[k] < values.len() - 1,
        forall|k: int, m: int|
            0 <= k < m < order.len() ==> #[trigger] precedes(values, order[k], order[m]),
    ensures
        0 <= at <= n,
        forall|k: int| 0 <= k < at ==> precedes(values, #[trigger] order[k], values.len() - 1),
        forall|k: int| at <= k < n ==> precedes(values, values.len() - 1, #[trigger] order[k]),
    decreases n,
{
    if n == 0 {
        0
    } else if precedes(values, order[n - 1], values.len() - 1) {
        assert forall|k: int| 0 <= k < n implies precedes(
            values,
            #[trigger] order[k],
            values.len() - 1,
        ) by {
            if k < n - 1 {
                assert(precedes(values, order[k], order[n - 1]));
            }
        }
        n
    } else {
        lemma_insertion_point(values, order, n - 1)
    }
}

/// Listing the last place between those before it and those after it keeps the order.
proof fn lemma_inserted_order(values: Seq<Value>, order: Seq<int>, at: int)
    requires
        order.len() == values.len() - 1,
        0 <= at <= order.len(),
        forall|k: int| 0 <= k < order.len() ==> 0 <= #[trigger] order[k] < values.len() - 1,
        forall|i: int| 0 <= i < values.len() - 1 ==> #[trigger] order.contains(i),
        forall|k: int, m: int|
            0 <= k < m < order.len() ==> #[trigger] precedes(values, order[k], order[m]),
        forall|k: int| 0 <= k < at ==> precedes(values, #[trigger] order[k], values.len() - 1),
        forall|k: int|
            at <= k < order.len() ==> precedes(values, values.len() - 1, #[trigger] order[k]),
    ensures
        is_ascending_order(values, order.insert(at, values.len() - 1)),
{
    let last = values.len() - 1;
    let wider = order.insert(at, last);
    assert forall|i: int| 0 <= i < values.len() implies #[trigger] wider.contains(i) by {
        if i == last {
            assert(wider[at] == i);
        } else {
            assert(order.contains(i));
            let k = choose|k: int| 0 <= k < order.len() && order[k] == i;
            if k < at {
                assert(wider[k] == i);
            } else {
                assert(wider[k + 1] == i);
            }
        }
    }
    assert forall|k: int, m: int| 0 <= k < m < wider.len() implies #[trigger] precedes(
        values,
        wider[k],
        wider[m],
    ) by {
        let k1 = if k < at { k } else { k - 1 };
        let m1 = if m < at { m } else { m - 1 };
        if k != at {
            assert(wider[k] == order[k1]);
        }
        if m != at {
            assert(wider[m] == order[m1]);
        }
        if k != at && m != at {
            assert(precedes(values, order[k1], order[m1]));
        }
    }
}

/// Whether the value of `a` comes before that of `b`, or they are equal.
fn key_at_most(a: Value, b: Value) -> (le: bool)
    ensures
        le == (sort_key(a) <= sort_key(b)),
{
    b.is_nan() || a.at_most(b)
}

/// The positions of a list of places, as integers.
pub open spec fn places(order: Seq<usize>) -> Seq<int> {
    order.map_values(|place: usize| place as int)
}

/// Lists the places of `values` in ascending order; places with equal values keep their order,
/// and values that are not numbers come last.
pub fn sort_places(values: &Vec<Value>) -> (order: Vec<usize>)
    ensures
        places(order@) == ascending_order(values@),
        is_ascending_order(values@, places(order@)),
{
    let mut order: Vec<usize> = Vec::new();
    let mut i: usize = 0;
    proof {
        assert(is_ascending_order(values@.take(0), places(order@)));
    }
    while i < values.len()
        invariant
            0 <= i <= values.len(),
            is_ascending_order(values@.take(i as int), places(order@)),
        decreases values.len() - i,
    {
        let ghost sorted = places(order@);
        let ghost done = values@.take(i as int);
        let ghost wider = values@.take(i + 1);
        let mut at: usize = 0;
        assert forall|k: int| 0 <= k < order.len() implies #[trigger] order[k] < i by {
            assert(sorted[k] == order[k]);
        }
        while at < order.len() && key_at_most(values[order[at]], values[i])
            invariant
                0 <= at <= order.len(),
                i < values.len(),
                order.len() == i,
                sorted == places(order@),
                forall|k: int| 0 <= k < order.len() ==> #[trigger] order[k] < i,
                forall|k: int|
                    0 <= k < at ==> sort_key(values[#[trigger] order[k] as int]) <= sort_key(
                        values[i as int],
                    ),
            decreases order.len() - at,
        {
            at = at + 1;
        }
        order.insert(at, i);
        proof {
            assert(places(order@) =~= sorted.insert(at as int, i as int));
            assert forall|k: int, m: int| 0 <= k < m < sorted.len() implies
                #[trigger] precedes(wider, sorted[k], sorted[m]) by {
                assert(precedes(done, sorted[k], sorted[m]));
            }
            assert forall|k: int| at <= k < sorted.len() implies precedes(
                wider,
                i as int,
                #[trigger] sorted[k],
            ) by {
                if k > at {
                    assert(precedes(wider, sorted[at as int], sorted[k]));
                }
            }
            lemma_inserted_order(wider, sorted, at as int);
        }
        i = i + 1;
    }
    proof {
        assert(values@.take(values.len() as int) =~= values@);
        law_ascending_order_is_unique(values@, places(order@), ascending_order(values@));
    }
    order
}

} // verus!

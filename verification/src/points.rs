//! Points of a line.
use crate::value::Value;
use vstd::prelude::*;

verus! {

/// The pairs of an x and a y coordinate, as many as there are of both.
pub open spec fn pairs(x: Seq<usize>, y: Seq<Value>) -> Seq<(usize, Value)> {
    Seq::new(
        if x.len() <= y.len() {
            x.len()
        } else {
            y.len()
        },
        |i: int| (x[i], y[i]),
    )
}

/// Whether a pair is a point that can be drawn.
pub open spec fn drawable() -> spec_fn((usize, Value)) -> bool {
    |point: (usize, Value)| !point.1.nan()
}

/// The points that can be drawn, in their order.
pub open spec fn points(x: Seq<usize>, y: Seq<Value>) -> Seq<(usize, Value)> {
    pairs(x, y).filter(drawable())
}

/// Returns the (x, y) points with those filtered out whose y coordinate is not a number.
pub fn get_points(x: &[usize], y: &[Value]) -> (drawn: Vec<(usize, Value)>)
    ensures
        drawn@ == points(x@, y@),
{
    let n: usize = if x.len() <= y.len() {
        x.len()
    } else {
        y.len()
    };
    let mut drawn: Vec<(usize, Value)> = Vec::new();
    let mut i: usize = 0;
    while i < n
        invariant
            0 <= i <= n,
            n == pairs(x@, y@).len(),
            n <= x.len(),
            n <= y.len(),
            drawn@ == pairs(x@, y@).take(i as int).filter(drawable()),
        decreases n - i,
    {
        proof {
            reveal(Seq::filter);
            assert(pairs(x@, y@).take(i + 1).drop_last() =~= pairs(x@, y@).take(i as int));
        }
        if !y[i].is_nan() {
            drawn.push((x[i], y[i]));
        }
        i = i + 1;
    }
    assert(pairs(x@, y@).take(n as int) =~= pairs(x@, y@));
    drawn
}

/// A point is drawn just where there is a pair of coordinates whose y coordinate is a number.
pub proof fn law_points_are_the_numbers(x: Seq<usize>, y: Seq<Value>, point: (usize, Value))
    ensures
        points(x, y).contains(point) <==> !point.1.nan() && exists|i: int|
            #![trigger x[i], y[i]]
            0 <= i < x.len() && i < y.len() && point == (x[i], y[i]),
{
    broadcast use vstd::seq_lib::group_filter_ensures;

    let all = pairs(x, y);
    let drawn = points(x, y);
    if drawn.contains(point) {
        let k = choose|k: int| 0 <= k < drawn.len() && drawn[k] == point;
        assert(drawable()(drawn[k]));
        all.lemma_filter_contains_rev(drawable(), point);
        let i = choose|i: int| 0 <= i < all.len() && all[i] == point;
        assert(point == (x[i], y[i]));
    }
    if !point.1.nan() && exists|i: int|
        #![trigger x[i], y[i]]
        0 <= i < x.len() && i < y.len() && point == (x[i], y[i]) {
        let i = choose|i: int|
            #![trigger x[i], y[i]]
            0 <= i < x.len() && i < y.len() && point == (x[i], y[i]);
        assert(all[i] == point);
        assert(drawable()(all[i]));
    }
}

/// Drawing a line in two parts, split at any place, draws the points of the whole line.
pub proof fn law_parts_make_the_line(x: Seq<usize>, y: Seq<Value>, at: int)
    requires
        x.len() == y.len(),
        0 <= at <= x.len(),
    ensures
        points(x.take(at), y.take(at)) + points(x.skip(at), y.skip(at)) == points(x, y),
{
    assert(pairs(x, y) =~= pairs(x.take(at), y.take(at)) + pairs(x.skip(at), y.skip(at)));
    Seq::filter_distributes_over_add(
        pairs(x.take(at), y.take(at)),
        pairs(x.skip(at), y.skip(at)),
        drawable(),
    );
}

} // verus!

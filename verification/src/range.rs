//! Minima and the ranges that charts span.
use crate::value::Value;
use vstd::prelude::*;

verus! {

/// The number of labels on a linear y axis. A logarithmic axis has no more.
pub const MAX_Y_LABELS: usize = 26;

/// The smallest and the largest value of a chart.
#[derive(Clone, Copy, Debug, PartialEq, Eq, Structural)]
pub struct Extremes {
    pub low: Value,
    pub high: Value,
}

/// Whether place `i` holds the smallest number of `values`, and is the first that does.
pub open spec fn is_first_lowest(values: Seq<Value>, i: int) -> bool {
    &&& 0 <= i < values.len()
    &&& !values[i].nan()
    &&& forall|j: int|
        0 <= j < values.len() && !(#[trigger] values[j]).nan() ==> values[i].rank()
            <= values[j].rank()
    &&& forall|j: int|
        0 <= j < i && !(#[trigger] values[j]).nan() ==> values[i].rank() < values[j].rank()
}

/// Whether place `i` holds the largest number of `values`, and is the last that does.
pub open spec fn is_last_highest(values: Seq<Value>, i: int) -> bool {
    &&& 0 <= i < values.len()
    &&& !values[i].nan()
    &&& forall|j: int|
        0 <= j < values.len() && !(#[trigger] values[j]).nan() ==> values[j].rank()
            <= values[i].rank()
    &&& forall|j: int|
        i < j < values.len() && !(#[trigger] values[j]).nan() ==> values[j].rank()
            < values[i].rank()
}

/// Whether any of the values is a number.
pub open spec fn has_number(values: Seq<Value>) -> bool {
    exists|i: int| 0 <= i < values.len() && !(#[trigger] values[i]).nan()
}

/// Whether `extremes` are the smallest and the largest number among `values`. Values that are
/// not numbers count only where there is nothing else; then the first of them stands for both.
pub open spec fn spans(values: Seq<Value>, extremes: Extremes) -> bool {
    if has_number(values) {
        &&& exists|i: int| #[trigger] is_first_lowest(values, i) && extremes.low == values[i]
        &&& exists|i: int| #[trigger] is_last_highest(values, i) && extremes.high == values[i]
    } else {
        extremes.low == values.first() && extremes.high == values.first()
    }
}

/// The smallest and the largest number among `values`. There is exactly one such pair
/// ([`law_extremes_exist`] and [`law_extremes_are_determined`]).
pub open spec fn range_of(values: Seq<Value>) -> Extremes {
    choose|extremes: Extremes| spans(values, extremes)
}

/// Finds the smallest and the largest number among `values`.
pub fn extremes(values: &Vec<Value>) -> (found: Extremes)
    requires
        values.len() > 0,
    ensures
        found == range_of(values@),
        spans(values@, found),
{
    let mut low: Value = values[0];
    let mut high: Value = values[0];
    let mut i: usize = 1;
    let ghost mut low_at: int = 0;
    let ghost mut high_at: int = 0;
    while i < values.len()
        invariant
            1 <= i <= values.len(),
            0 <= low_at < i,
            0 <= high_at < i,
            low == values[low_at],
            high == values[high_at],
            has_number(values@.take(i as int)) ==> is_first_lowest(values@.take(i as int), low_at)
                && is_last_highest(values@.take(i as int), high_at),
            !has_number(values@.take(i as int)) ==> low_at == 0 && high_at == 0,
        decreases values.len() - i,
    {
        let ghost before = values@.take(i as int);
        let ghost after = values@.take(i + 1);
        let value = values[i];
        assert(forall|j: int| 0 <= j < i ==> after[j] == before[j]);
        assert(after[i as int] == value);
        assert(has_number(before) ==> !low.nan() && !high.nan());
        assert(!has_number(before) ==> before[0].nan());
        if !value.is_nan() {
            assert(!after[i as int].nan());
            if !low.at_most(value) {
                low = value;
                proof {
                    low_at = i as int;
                }
            }
            if high.is_nan() || high.at_most(value) {
                high = value;
                proof {
                    high_at = i as int;
                }
            }
            assert(is_first_lowest(after, low_at));
            assert(is_last_highest(after, high_at));
        } else {
            assert(has_number(after) ==> has_number(before)) by {
                if has_number(after) {
                    let j = choose|j: int| 0 <= j < after.len() && !(#[trigger] after[j]).nan();
                    assert(!before[j].nan());
                }
            }
            assert(has_number(before) ==> is_first_lowest(after, low_at) && is_last_highest(
                after,
                high_at,
            ));
        }
        i = i + 1;
    }
    let found = Extremes { low, high };
    proof {
        assert(values@.take(values.len() as int) =~= values@);
        assert(spans(values@, found));
        law_extremes_are_determined(values@, found, range_of(values@));
    }
    found
}

/// The range of the values encompasses every one of them that is a number.
pub proof fn law_range_encompasses_all_numbers(values: Seq<Value>, extremes: Extremes, i: int)
    requires
        spans(values, extremes),
        0 <= i < values.len(),
        !values[i].nan(),
    ensures
        extremes.low.le(values[i]),
        values[i].le(extremes.high),
        values.contains(extremes.low),
        values.contains(extremes.high),
{
    assert(has_number(values));
    let low = choose|low: int| #[trigger]
        is_first_lowest(values, low) && extremes.low == values[low];
    let high = choose|high: int| #[trigger]
        is_last_highest(values, high) && extremes.high == values[high];
    assert(values[low].rank() <= values[i].rank());
    assert(values[i].rank() <= values[high].rank());
}

/// The extremes of given values are determined.
pub proof fn law_extremes_are_determined(values: Seq<Value>, a: Extremes, b: Extremes)
    requires
        spans(values, a),
        spans(values, b),
    ensures
        a == b,
{
    if has_number(values) {
        let a_low = choose|i: int| #[trigger] is_first_lowest(values, i) && a.low == values[i];
        let b_low = choose|i: int| #[trigger] is_first_lowest(values, i) && b.low == values[i];
        assert(a_low == b_low);
        let a_high = choose|i: int| #[trigger] is_last_highest(values, i) && a.high == values[i];
        let b_high = choose|i: int| #[trigger] is_last_highest(values, i) && b.high == values[i];
        assert(a_high == b_high);
    }
}

/// Every list of values has a smallest and a largest number, or a value that stands for both.
pub proof fn law_extremes_exist(values: Seq<Value>)
    ensures
        spans(values, range_of(values)),
{
    if has_number(values) {
        law_minimum_exists(values);
        let low = minimum_place(values);
        let high = lemma_last_highest_exists(values);
        assert(spans(values, Extremes { low: values[low], high: values[high] }));
    } else {
        assert(spans(values, Extremes { low: values.first(), high: values.first() }));
    }
}

proof fn lemma_last_highest_exists(values: Seq<Value>) -> (high: int)
    requires
        has_number(values),
    ensures
        is_last_highest(values, high),
    decreases values.len(),
{
    let shorter = values.drop_last();
    let last = values.len() - 1;
    assert(forall|j: int| 0 <= j < last ==> shorter[j] == values[j]);
    let some = choose|i: int| 0 <= i < values.len() && !(#[trigger] values[i]).nan();
    if !has_number(shorter) {
        assert forall|j: int| 0 <= j < last implies (#[trigger] values[j]).nan() by {
            assert(shorter[j].nan());
        }
        assert(some == last);
        last
    } else {
        let high = lemma_last_highest_exists(shorter);
        if !values[last].nan() && values[high].rank() <= values[last].rank() {
            assert forall|j: int| 0 <= j < values.len() && !(#[trigger] values[j]).nan() implies
                values[j].rank() <= values[last].rank() by {
                if j < last {
                    assert(!shorter[j].nan());
                }
            }
            last
        } else {
            assert forall|j: int| 0 <= j < values.len() && !(#[trigger] values[j]).nan() implies
                values[j].rank() <= values[high].rank() && (high < j ==> values[j].rank()
                < values[high].rank()) by {
                if j < last {
                    assert(!shorter[j].nan());
                }
            }
            high
        }
    }
}

/// Where all numbers are above zero, so are the ends of the range, and their logarithms can be
/// taken.
pub proof fn law_range_of_positive_numbers_is_positive(values: Seq<Value>, extremes: Extremes)
    requires
        spans(values, extremes),
        has_number(values),
        forall|i: int|
            0 <= i < values.len() && !(#[trigger] values[i]).nan() ==> values[i].rank() > 0,
    ensures
        !extremes.low.nan(),
        extremes.low.rank() > 0,
        !extremes.high.nan(),
        extremes.high.rank() > 0,
{
    let low = choose|i: int| #[trigger] is_first_lowest(values, i) && extremes.low == values[i];
    let high = choose|i: int| #[trigger] is_last_highest(values, i) && extremes.high == values[i];
    assert(values[low].rank() > 0);
    assert(values[high].rank() > 0);
}

/// More values never shrink the range: where every number of `xs` occurs in `ys`, the range of
/// `ys` reaches as far as that of `xs` at either end.
pub proof fn law_more_values_never_shrink_the_range(
    xs: Seq<Value>,
    ys: Seq<Value>,
    a: Extremes,
    b: Extremes,
)
    requires
        spans(xs, a),
        spans(ys, b),
        has_number(xs),
        forall|i: int| 0 <= i < xs.len() && !(#[trigger] xs[i]).nan() ==> ys.contains(xs[i]),
    ensures
        b.low.le(a.low),
        a.high.le(b.high),
{
    let low = choose|i: int| #[trigger] is_first_lowest(xs, i) && a.low == xs[i];
    let high = choose|i: int| #[trigger] is_last_highest(xs, i) && a.high == xs[i];
    assert(ys.contains(xs[low]));
    assert(ys.contains(xs[high]));
    let i = choose|i: int| 0 <= i < ys.len() && ys[i] == xs[low];
    let j = choose|j: int| 0 <= j < ys.len() && ys[j] == xs[high];
    law_range_encompasses_all_numbers(ys, b, i);
    law_range_encompasses_all_numbers(ys, b, j);
}

/// Neither the order of the values nor their repetition matters for the range: lists with the
/// same numbers have ranges with equal ends. The ends are the same bit for bit unless they are
/// zero, which has two signs.
pub proof fn law_range_depends_on_the_numbers_only(
    xs: Seq<Value>,
    ys: Seq<Value>,
    a: Extremes,
    b: Extremes,
)
    requires
        spans(xs, a),
        spans(ys, b),
        has_number(xs),
        forall|i: int| 0 <= i < xs.len() && !(#[trigger] xs[i]).nan() ==> ys.contains(xs[i]),
        forall|i: int| 0 <= i < ys.len() && !(#[trigger] ys[i]).nan() ==> xs.contains(ys[i]),
    ensures
        a.low.eqv(b.low),
        a.high.eqv(b.high),
        a.low.rank() != 0 ==> a.low == b.low,
        a.high.rank() != 0 ==> a.high == b.high,
{
    let low = choose|i: int| #[trigger] is_first_lowest(xs, i) && a.low == xs[i];
    assert(ys.contains(xs[low]));
    let i = choose|i: int| 0 <= i < ys.len() && ys[i] == xs[low];
    assert(!ys[i].nan());
    law_more_values_never_shrink_the_range(xs, ys, a, b);
    law_more_values_never_shrink_the_range(ys, xs, b, a);
}

/// Whether place `r` holds the minimum: the smallest number, where it occurs first. Where none of
/// the values is a number, the last place stands for it.
pub open spec fn is_minimum(values: Seq<Value>, r: int) -> bool {
    if has_number(values) {
        is_first_lowest(values, r)
    } else {
        r == values.len() - 1
    }
}

/// The place of the minimum. There is exactly one ([`law_minimum_exists`] and
/// [`law_minimum_is_unique`]).
pub open spec fn minimum_place(values: Seq<Value>) -> int {
    choose|r: int| is_minimum(values, r)
}

/// Finds the place of the minimum.
pub fn minimum(values: &Vec<Value>) -> (place: usize)
    requires
        values.len() > 0,
    ensures
        place < values.len(),
        place == minimum_place(values@),
        is_minimum(values@, place as int),
        has_number(values@) ==> is_first_lowest(values@, place as int),
{
    let mut place: usize = 0;
    let mut i: usize = 1;
    proof {
        lemma_minimum_of_one(values@.take(1));
    }
    while i < values.len()
        invariant
            1 <= i <= values.len(),
            place < i,
            is_minimum(values@.take(i as int), place as int),
        decreases values.len() - i,
    {
        proof {
            let after = values@.take(i + 1);
            assert(after.drop_last() =~= values@.take(i as int));
            lemma_minimum_step(after, place as int);
        }
        if values[place].is_nan() || !values[i].is_nan() && !values[place].at_most(values[i]) {
            place = i;
        }
        i = i + 1;
    }
    proof {
        assert(values@.take(values.len() as int) =~= values@);
        law_minimum_is_unique(values@, place as int, minimum_place(values@));
    }
    place
}

proof fn lemma_minimum_of_one(values: Seq<Value>)
    requires
        values.len() == 1,
    ensures
        is_minimum(values, 0),
{
    if has_number(values) {
        assert(!values[0].nan());
    }
}

/// One step of the walk to the minimum.
proof fn lemma_minimum_step(values: Seq<Value>, kept: int)
    requires
        values.len() > 1,
        is_minimum(values.drop_last(), kept),
    ensures
        is_minimum(
            values,
            if values[kept].nan() || !values.last().nan() && !values[kept].le(values.last()) {
                values.len() - 1
            } else {
                kept
            },
        ),
{
    let before = values.drop_last();
    let last = values.len() - 1;
    assert(forall|j: int| 0 <= j < last ==> before[j] == values[j]);
    assert(has_number(before) ==> has_number(values)) by {
        if has_number(before) {
            assert(!values[kept].nan());
        }
    }
    if !has_number(before) {
        assert forall|j: int| 0 <= j < last implies (#[trigger] values[j]).nan() by {
            assert(before[j].nan());
        }
        assert(values[kept].nan());
        if has_number(values) {
            assert(is_first_lowest(values, last));
        }
    } else if !values.last().nan() && !values[kept].le(values.last()) {
        assert(is_first_lowest(values, last));
    } else {
        assert(is_first_lowest(values, kept));
    }
}

/// There is a minimum wherever there is a value.
pub proof fn law_minimum_exists(values: Seq<Value>)
    requires
        values.len() > 0,
    ensures
        is_minimum(values, minimum_place(values)),
        0 <= minimum_place(values) < values.len(),
    decreases values.len(),
{
    if values.len() == 1 {
        lemma_minimum_of_one(values);
    } else {
        law_minimum_exists(values.drop_last());
        lemma_minimum_step(values, minimum_place(values.drop_last()));
    }
}

/// There is one minimum only.
pub proof fn law_minimum_is_unique(values: Seq<Value>, a: int, b: int)
    requires
        is_minimum(values, a),
        is_minimum(values, b),
    ensures
        a == b,
{
    if has_number(values) {
        assert(values[a].rank() <= values[b].rank());
        assert(values[b].rank() <= values[a].rank());
    }
}

/// The minimum is at most every number, wherever values that are not numbers stand.
pub proof fn law_minimum_is_smallest(values: Seq<Value>, r: int, i: int)
    requires
        is_minimum(values, r),
        0 <= i < values.len(),
        !values[i].nan(),
    ensures
        values[r].le(values[i]),
        i < r ==> !values[i].le(values[r]),
{
    assert(has_number(values));
}

/// The minimum is a number just where any of the values is.
pub proof fn law_minimum_is_a_number(values: Seq<Value>, r: int)
    requires
        values.len() > 0,
        is_minimum(values, r),
    ensures
        values[r].nan() <==> !has_number(values),
{
    if !values[r].nan() && 0 <= r < values.len() {
        assert(has_number(values));
    }
}

/// Whether a value equals the given one, as doubles.
pub open spec fn equal_to(value: Value) -> spec_fn(Value) -> bool {
    |other: Value| other.eqv(value)
}

/// How often `value` occurs among `values`.
pub open spec fn occurrences(values: Seq<Value>, value: Value) -> nat {
    values.filter(equal_to(value)).len()
}

/// Counts how often `value` occurs among `values`.
pub fn count(values: &Vec<Value>, value: Value) -> (n: usize)
    ensures
        n == occurrences(values@, value),
{
    let mut n: usize = 0;
    let mut i: usize = 0;
    while i < values.len()
        invariant
            0 <= i <= values.len(),
            n == occurrences(values@.take(i as int), value),
            n <= i,
        decreases values.len() - i,
    {
        proof {
            reveal(Seq::filter);
            assert(values@.take(i + 1).drop_last() =~= values@.take(i as int));
        }
        if values[i].equals(value) {
            n = n + 1;
        }
        i = i + 1;
    }
    assert(values@.take(values.len() as int) =~= values@);
    n
}

/// The number of y labels of a logarithmic axis that spans the given number of decades: one for
/// each decade, up to [`MAX_Y_LABELS`].
pub open spec fn log_labels(decades: nat) -> nat {
    if decades <= MAX_Y_LABELS {
        decades
    } else {
        MAX_Y_LABELS as nat
    }
}

/// Returns the number of y labels of a logarithmic axis that spans the given number of decades,
/// rounded to an integer.
pub fn log_label_count(decades: usize) -> (labels: usize)
    ensures
        labels == log_labels(decades as nat),
{
    if decades <= MAX_Y_LABELS {
        decades
    } else {
        MAX_Y_LABELS
    }
}

/// Returns the number of y labels of an axis. It counts the decades where the axis is
/// logarithmic, and is [`MAX_Y_LABELS`] where it is linear.
pub fn label_count(log_y: bool, decades: usize) -> (labels: usize)
    ensures
        labels == (if log_y {
            log_labels(decades as nat)
        } else {
            MAX_Y_LABELS as nat
        }),
{
    if log_y {
        log_label_count(decades)
    } else {
        MAX_Y_LABELS
    }
}

/// A wider axis never has fewer labels, and none has more than [`MAX_Y_LABELS`].
pub proof fn law_wider_axis_has_no_fewer_labels(narrow: nat, wide: nat)
    requires
        narrow <= wide,
    ensures
        log_labels(narrow) <= log_labels(wide) <= MAX_Y_LABELS,
{
}

/// A logarithmic range of more values never shrinks, and never has fewer labels. `bottom` and
/// `top` give the ends of the range, with their margins, for its smallest and its largest value,
/// and `decades` gives its width; all three are taken to keep the order of numbers above zero.
pub proof fn law_more_values_never_shrink_the_log_range(
    xs: Seq<Value>,
    ys: Seq<Value>,
    a: Extremes,
    b: Extremes,
    bottom: spec_fn(Value) -> Value,
    top: spec_fn(Value) -> Value,
    decades: spec_fn(Extremes) -> nat,
)
    requires
        spans(xs, a),
        spans(ys, b),
        has_number(xs),
        forall|i: int| 0 <= i < xs.len() && !(#[trigger] xs[i]).nan() ==> ys.contains(xs[i]),
        forall|i: int| 0 <= i < ys.len() && !(#[trigger] ys[i]).nan() ==> ys[i].rank() > 0,
        forall|u: Value, v: Value|
            #![trigger bottom(u), bottom(v)]
            u.rank() > 0 && u.le(v) ==> bottom(u).le(bottom(v)),
        forall|u: Value, v: Value|
            #![trigger top(u), top(v)]
            u.rank() > 0 && u.le(v) ==> top(u).le(top(v)),
        forall|narrow: Extremes, wide: Extremes|
            #![trigger decades(narrow), decades(wide)]
            wide.low.rank() > 0 && wide.low.le(narrow.low) && narrow.low.le(narrow.high)
                && narrow.high.le(wide.high) ==> decades(narrow) <= decades(wide),
    ensures
        bottom(b.low).le(bottom(a.low)),
        top(a.high).le(top(b.high)),
        log_labels(decades(a)) <= log_labels(decades(b)),
{
    let i = choose|i: int| 0 <= i < xs.len() && !(#[trigger] xs[i]).nan();
    assert(ys.contains(xs[i]));
    let j = choose|j: int| 0 <= j < ys.len() && ys[j] == xs[i];
    assert(!ys[j].nan());
    law_range_of_positive_numbers_is_positive(ys, b);
    law_range_encompasses_all_numbers(xs, a, i);
    law_more_values_never_shrink_the_range(xs, ys, a, b);
}

/// Lists with the same numbers, all of them above zero, have the same extremes, and so the same
/// logarithmic range and number of labels, whatever their order and repetition.
pub proof fn law_log_range_depends_on_the_numbers_only(
    xs: Seq<Value>,
    ys: Seq<Value>,
    a: Extremes,
    b: Extremes,
)
    requires
        spans(xs, a),
        spans(ys, b),
        has_number(xs),
        forall|i: int| 0 <= i < xs.len() && !(#[trigger] xs[i]).nan() ==> xs[i].rank() > 0,
        forall|i: int| 0 <= i < xs.len() && !(#[trigger] xs[i]).nan() ==> ys.contains(xs[i]),
        forall|i: int| 0 <= i < ys.len() && !(#[trigger] ys[i]).nan() ==> xs.contains(ys[i]),
    ensures
        a == b,
{
    law_range_of_positive_numbers_is_positive(xs, a);
    law_range_depends_on_the_numbers_only(xs, ys, a, b);
}

/// The margin of a linear range whose one value is zero: 1.0.
pub const ZERO_MARGIN: u64 = 0x3ff0_0000_0000_0000;

/// The margin to add to either end of a linear range: the share of the range's width. Where that
/// is zero it is the size of the share of the range's upper end, and where that is zero too it
/// is [`ZERO_MARGIN`]. So the margin of a range of numbers is above zero, and the range
/// encompasses a single value as well.
pub fn choose_margin(of_width: Value, of_upper_end: Value) -> (margin: Value)
    ensures
        margin == (if !of_width.eqv(Value { bits: 0 }) {
            of_width
        } else if !of_upper_end.eqv(Value { bits: 0 }) {
            of_upper_end.absolute()
        } else {
            Value { bits: ZERO_MARGIN }
        }),
        (Value { bits: 0 }).le(of_width) && !of_upper_end.nan() ==> !margin.nan() && margin.rank()
            > 0,
{
    let zero = Value { bits: 0 };
    if !of_width.equals(zero) {
        of_width
    } else if !of_upper_end.equals(zero) {
        of_upper_end.abs()
    } else {
        Value { bits: ZERO_MARGIN }
    }
}

} // verus!

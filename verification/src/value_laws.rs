//! What values, their order and their ranges mean, in terms of bit patterns and places.
use crate::order::{ascending_order, law_ascending_order_exists, places, precedes};
use crate::range::{
    has_number, is_first_lowest, is_last_highest, law_extremes_exist, law_minimum_exists,
    log_labels, minimum_place, occurrences, range_of,
};
use crate::value::{applied_offsets, Offset, Value};
use vstd::prelude::*;

verus! {

/// A pattern is that of a double that is not a number just where, its sign aside, it lies above
/// that of infinity.
pub proof fn law_patterns_that_are_not_numbers(a: Value)
    ensures
        a.nan() <==> (0x7ff0_0000_0000_0000 < a.bits < 0x8000_0000_0000_0000 || a.bits
            > 0xfff0_0000_0000_0000),
{
}

/// The order of doubles by their patterns: patterns ascend with numbers that have no sign and
/// descend with those that have one, which lie below the others; the two zeros are equal; and
/// nothing is ordered with what is not a number.
pub proof fn law_order_of_patterns(a: Value, b: Value)
    ensures
        a.nan() || b.nan() ==> !a.le(b) && !a.eqv(b),
        !a.nan() && !b.nan() ==> {
            let negative_a = a.bits >= 0x8000_0000_0000_0000;
            let negative_b = b.bits >= 0x8000_0000_0000_0000;
            &&& !negative_a && !negative_b ==> (a.le(b) <==> a.bits <= b.bits)
            &&& negative_a && negative_b ==> (a.le(b) <==> a.bits >= b.bits)
            &&& negative_a && !negative_b ==> a.le(b)
            &&& !negative_a && negative_b ==> (a.le(b) <==> a.bits == 0 && b.bits
                == 0x8000_0000_0000_0000)
            &&& a.eqv(b) <==> a.le(b) && b.le(a)
            &&& a.eqv(b) <==> a.bits == b.bits || (a.bits == 0 || a.bits == 0x8000_0000_0000_0000)
                && (b.bits == 0 || b.bits == 0x8000_0000_0000_0000)
        },
{
}

/// The order is total on numbers, and transitive.
pub proof fn law_order_is_total(a: Value, b: Value, c: Value)
    ensures
        !a.nan() && !b.nan() ==> a.le(b) || b.le(a),
        !a.nan() <==> a.le(a),
        a.le(b) && b.le(c) ==> a.le(c),
{
}

/// The absolute value has the pattern with its sign bit cleared, and negation has the pattern
/// with its sign bit flipped.
pub proof fn law_sign_bit(a: Value)
    ensures
        a.absolute().bits == a.bits & 0x7fff_ffff_ffff_ffff,
        a.negated().bits == a.bits ^ 0x8000_0000_0000_0000,
        a.absolute().nan() <==> a.nan(),
        !a.nan() ==> (Value { bits: 0 }).le(a.absolute()),
        (Value { bits: 0 }).le(a) ==> a.absolute().eqv(a),
        a.le(Value { bits: 0 }) ==> a.absolute().eqv(a.negated()),
{
    let bits = a.bits;
    assert(bits >= 0x8000_0000_0000_0000u64 ==> bits & 0x7fff_ffff_ffff_ffffu64 == bits
        - 0x8000_0000_0000_0000u64) by (bit_vector);
    assert(bits < 0x8000_0000_0000_0000u64 ==> bits & 0x7fff_ffff_ffff_ffffu64 == bits)
        by (bit_vector);
    assert(bits >= 0x8000_0000_0000_0000u64 ==> bits ^ 0x8000_0000_0000_0000u64 == bits
        - 0x8000_0000_0000_0000u64) by (bit_vector);
    assert(bits < 0x8000_0000_0000_0000u64 ==> bits ^ 0x8000_0000_0000_0000u64 == bits
        + 0x8000_0000_0000_0000u64) by (bit_vector);
}

/// The offset raises a number that has no sign, and zero with either sign. It lowers every other
/// double, one that is not a number too.
pub proof fn law_offset_raises_or_lowers(a: Offset)
    ensures
        a.value.bits <= 0x7ff0_0000_0000_0000 || a.value.bits == 0x8000_0000_0000_0000
            ==> a.applied() == a.raised,
        a.value.bits > 0x7ff0_0000_0000_0000 && a.value.bits != 0x8000_0000_0000_0000
            ==> a.applied() == a.lowered,
{
}

/// Offsets are applied one by one, in place.
pub proof fn law_offsets_are_applied_in_place(values: Seq<Offset>)
    ensures
        applied_offsets(values).len() == values.len(),
        forall|i: int|
            0 <= i < values.len() ==> #[trigger] applied_offsets(values)[i] == values[i].applied(),
{
}

/// Whether `order` lists the places of `values` so that numbers ascend and what is not a number
/// follows them, and places with equal values, or with values that are not numbers, keep their
/// order.
pub open spec fn sorts_stably(values: Seq<Value>, order: Seq<int>) -> bool {
    &&& order.len() == values.len()
    &&& forall|k: int| 0 <= k < order.len() ==> 0 <= #[trigger] order[k] < values.len()
    &&& forall|i: int| 0 <= i < values.len() ==> #[trigger] order.contains(i)
    &&& forall|k: int, m: int|
        0 <= k < m < order.len() && !values[order[m]].nan() ==> values[#[trigger] order[k]].le(
            values[#[trigger] order[m]],
        )
    &&& forall|k: int, m: int|
        0 <= k < m < order.len() && (values[order[k]].eqv(values[order[m]])
            || values[order[k]].nan() && values[order[m]].nan()) ==> #[trigger] order[k]
            < #[trigger] order[m]
}

/// The ascending order sorts stably.
pub proof fn law_ascending_order_sorts_stably(values: Seq<Value>)
    ensures
        sorts_stably(values, ascending_order(values)),
{
    let order = ascending_order(values);
    law_ascending_order_exists(values);
    assert forall|k: int, m: int| 0 <= k < m < order.len() implies {
        &&& !values[order[m]].nan() ==> values[#[trigger] order[k]].le(
            values[#[trigger] order[m]],
        )
        &&& values[order[k]].eqv(values[order[m]]) || values[order[k]].nan()
            && values[order[m]].nan() ==> order[k] < order[m]
    } by {
        assert(precedes(values, order[k], order[m]));
    }
}

/// What sorts stably lists every place once, never a number before a smaller one, and never what
/// is not a number before a number.
pub proof fn law_stable_sorting_keeps_all_places(
    values: Seq<Value>,
    order: Seq<int>,
    k: int,
    m: int,
)
    requires
        sorts_stably(values, order),
        0 <= k < m < values.len(),
    ensures
        order.len() == values.len(),
        0 <= order[k] < values.len(),
        0 <= order[m] < values.len(),
        order[k] != order[m],
        values[order[k]].nan() ==> values[order[m]].nan(),
        !values[order[m]].nan() ==> values[order[k]].le(values[order[m]]),
        values[order[m]].le(values[order[k]]) ==> order[k] < order[m],
        forall|i: int| 0 <= i < values.len() ==> #[trigger] order.contains(i),
{
}

/// Places are the numbers that are listed.
pub proof fn law_places_are_the_listed_numbers(order: Seq<usize>)
    ensures
        places(order).len() == order.len(),
        forall|k: int| 0 <= k < order.len() ==> #[trigger] places(order)[k] == order[k],
{
}

/// The range of values: every number lies in it; its lower end is the first of the smallest
/// numbers and its upper end the last of the largest, bit for bit; and where there is no number
/// both are the first value.
pub proof fn law_range_of_values(values: Seq<Value>)
    requires
        values.len() > 0,
    ensures
        forall|i: int|
            0 <= i < values.len() && !(#[trigger] values[i]).nan() ==> range_of(values).low.le(
                values[i],
            ) && values[i].le(range_of(values).high),
        (exists|i: int| 0 <= i < values.len() && !(#[trigger] values[i]).nan()) ==> {
            &&& exists|i: int|
                #![trigger values[i]]
                0 <= i < values.len() && values[i] == range_of(values).low && !values[i].nan()
                    && forall|j: int| 0 <= j < i ==> !(#[trigger] values[j]).le(values[i])
            &&& exists|i: int|
                #![trigger values[i]]
                0 <= i < values.len() && values[i] == range_of(values).high && !values[i].nan()
                    && forall|j: int| i < j < values.len() ==> !values[i].le(#[trigger] values[j])
        },
        (forall|i: int| 0 <= i < values.len() ==> (#[trigger] values[i]).nan()) ==> range_of(
            values,
        ).low == values[0] && range_of(values).high == values[0],
{
    law_extremes_exist(values);
    let range = range_of(values);
    if has_number(values) {
        let low = choose|i: int| #[trigger] is_first_lowest(values, i) && range.low == values[i];
        let high = choose|i: int| #[trigger]
            is_last_highest(values, i) && range.high == values[i];
        assert forall|i: int| 0 <= i < values.len() && !(#[trigger] values[i]).nan() implies
            range.low.le(values[i]) && values[i].le(range.high) by {
            assert(values[low].rank() <= values[i].rank());
            assert(values[i].rank() <= values[high].rank());
        }
        assert(values[low] == range.low && forall|j: int|
            0 <= j < low ==> !(#[trigger] values[j]).le(values[low]));
        assert(values[high] == range.high && forall|j: int|
            high < j < values.len() ==> !values[high].le(#[trigger] values[j]));
    }
}

/// The minimum is a place with a number where there is one, the first whose number is at most
/// every number; else it is the last place.
pub proof fn law_place_of_the_minimum(values: Seq<Value>)
    requires
        values.len() > 0,
    ensures
        0 <= minimum_place(values) < values.len(),
        forall|i: int|
            0 <= i < values.len() && !(#[trigger] values[i]).nan() ==> values[minimum_place(
                values,
            )].le(values[i]),
        forall|i: int|
            0 <= i < minimum_place(values) ==> !(#[trigger] values[i]).le(
                values[minimum_place(values)],
            ),
        (forall|i: int| 0 <= i < values.len() ==> (#[trigger] values[i]).nan())
            ==> minimum_place(values) == values.len() - 1,
{
    law_minimum_exists(values);
    let r = minimum_place(values);
    assert forall|i: int| 0 <= i < values.len() && !(#[trigger] values[i]).nan() implies
        values[r].le(values[i]) by {
        assert(has_number(values));
    }
    assert forall|i: int| 0 <= i < r implies !(#[trigger] values[i]).le(values[r]) by {
        if values[i].le(values[r]) {
            assert(has_number(values));
        }
    }
}

/// A value occurs once more in a list with one more entry where that entry equals it as doubles,
/// and it does not occur in an empty list.
pub proof fn law_occurrences_are_counted(values: Seq<Value>, entry: Value, value: Value)
    ensures
        occurrences(Seq::empty(), value) == 0,
        occurrences(values.push(entry), value) == occurrences(values, value) + (if entry.eqv(
            value,
        ) {
            1int
        } else {
            0int
        }),
{
    reveal(Seq::filter);
    assert(values.push(entry).drop_last() =~= values);
}

/// A value occurs more than once just where it has two places.
pub proof fn law_repeated_values_have_two_places(values: Seq<Value>, value: Value)
    ensures
        occurrences(values, value) > 0 <==> exists|i: int|
            0 <= i < values.len() && (#[trigger] values[i]).eqv(value),
        occurrences(values, value) > 1 <==> exists|i: int, j: int|
            0 <= i < j < values.len() && (#[trigger] values[i]).eqv(value) && (
            #[trigger] values[j]).eqv(value),
    decreases values.len(),
{
    if values.len() == 0 {
        assert(values =~= Seq::empty());
        law_occurrences_are_counted(values, value, value);
    } else {
        let shorter = values.drop_last();
        let last = values.len() - 1;
        law_repeated_values_have_two_places(shorter, value);
        law_occurrences_are_counted(shorter, values.last(), value);
        assert(shorter.push(values.last()) =~= values);
        assert(forall|i: int| 0 <= i < last ==> shorter[i] == values[i]);
        if occurrences(shorter, value) > 0 {
            let i = choose|i: int| 0 <= i < shorter.len() && (#[trigger] shorter[i]).eqv(value);
            assert(values[i].eqv(value));
            if values[last].eqv(value) {
                assert(values[i].eqv(value) && values[last].eqv(value));
            }
        }
        if occurrences(shorter, value) > 1 {
            let (i, j) = choose|i: int, j: int|
                0 <= i < j < shorter.len() && (#[trigger] shorter[i]).eqv(value) && (
                #[trigger] shorter[j]).eqv(value);
            assert(values[i].eqv(value) && values[j].eqv(value));
        }
        if values[last].eqv(value) {
            assert(occurrences(values, value) > 0);
        }
        if exists|i: int| 0 <= i < values.len() && (#[trigger] values[i]).eqv(value) {
            let i = choose|i: int| 0 <= i < values.len() && (#[trigger] values[i]).eqv(value);
            if i < last {
                assert(shorter[i].eqv(value));
            }
        }
        if exists|i: int, j: int|
            0 <= i < j < values.len() && (#[trigger] values[i]).eqv(value) && (
            #[trigger] values[j]).eqv(value) {
            let (i, j) = choose|i: int, j: int|
                0 <= i < j < values.len() && (#[trigger] values[i]).eqv(value) && (
                #[trigger] values[j]).eqv(value);
            assert(shorter[i].eqv(value));
            if j < last {
                assert(shorter[j].eqv(value));
            }
        }
    }
}

/// A logarithmic axis has a label for each decade up to 26, and 26 labels from there on.
pub proof fn law_log_labels_are_capped(decades: nat)
    ensures
        decades <= 26 ==> log_labels(decades) == decades,
        decades >= 26 ==> log_labels(decades) == 26,
{
}

} // verus!

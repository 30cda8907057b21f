//! What holds of plots as a whole.
use crate::chart::{ChartModel, ElementModel};
use crate::data::{DataPoint, Histories};
use crate::integer::{fits, integer_value, law_integers_keep_their_order};
use crate::label::{decimal, digit, mean_label};
use crate::layout::{
    absolute_values, counts_for_range, entry_value, numbered, ranged_distances, row_lines, RowLabel,
};
use crate::order::{
    ascending_order, is_ascending_order, law_ascending_order_exists, precedes, sort_key,
};
use crate::palette::{palette99, palette_color};
use crate::plot::PlotModel;
use crate::points::{law_parts_make_the_line, law_points_are_the_numbers, points};
use crate::range::{
    equal_to, has_number, is_first_lowest, is_last_highest, is_minimum,
    law_extremes_are_determined, law_extremes_exist, law_minimum_exists, law_minimum_is_unique,
    law_range_encompasses_all_numbers, minimum_place, occurrences, range_of, spans, Extremes,
};
use crate::value::{law_applying_offsets_keeps_order, sums_keep_order, Value};
use vstd::prelude::*;

verus! {

// Recording and clearing.

/// A data point keeps the histories aligned.
pub proof fn law_recording_keeps_alignment(histories: Histories, point: DataPoint)
    requires
        histories.aligned(),
        point.has_dimensions(histories.dimensions()),
    ensures
        histories.with_point(point).aligned(),
        histories.with_point(point).num_points() == histories.num_points() + 1,
        histories.with_point(point).dimensions() == histories.dimensions(),
{
}

/// The next data point is due the configured number of function evaluations after the last one,
/// and at once where that number is zero.
pub proof fn law_gap_between_data_points(plot: PlotModel, point: DataPoint)
    ensures
        plot.with_point(point).next_data_point_evals() - point.function_evals
            == plot.options.min_gap_evals,
        plot.options.min_gap_evals == 0 ==> plot.with_point(point).next_data_point_evals()
            == point.function_evals,
{
}

/// Clearing changes neither the options nor when the next data point is due.
pub proof fn law_clearing_keeps_schedule(plot: PlotModel)
    ensures
        plot.cleared().next_data_point_evals() == plot.next_data_point_evals(),
        plot.cleared().options == plot.options,
        plot.cleared().last_data_point_evals == plot.last_data_point_evals,
{
}

/// Clearing keeps one data point, the most recent one.
pub proof fn law_clearing_keeps_latest(histories: Histories)
    requires
        histories.aligned(),
        histories.num_points() > 0,
    ensures
        histories.only_latest().aligned(),
        histories.only_latest().num_points() == 1,
        histories.only_latest().dimensions() == histories.dimensions(),
        histories.only_latest().function_evals.last() == histories.function_evals.last(),
        histories.only_latest().best_function_value.last()
            == histories.best_function_value.last(),
        histories.only_latest().sigma.last() == histories.sigma.last(),
        histories.only_latest().axis_ratio.last() == histories.axis_ratio.last(),
        forall|i: int|
            #![trigger histories.mean_dimensions[i]]
            0 <= i < histories.dimensions() ==> histories.only_latest().mean_dimensions[i].last()
                == histories.mean_dimensions[i].last(),
        forall|i: int|
            #![trigger histories.sqrt_eigenvalues[i]]
            0 <= i < histories.dimensions() ==> histories.only_latest().sqrt_eigenvalues[i].last()
                == histories.sqrt_eigenvalues[i].last(),
        forall|i: int|
            #![trigger histories.coord_axis_scales[i]]
            0 <= i < histories.dimensions() ==> histories.only_latest().coord_axis_scales[i].last()
                == histories.coord_axis_scales[i].last(),
{
}

/// Clearing what is cleared changes nothing.
pub proof fn law_clearing_twice_is_clearing_once(plot: PlotModel)
    requires
        plot.valid(),
        plot.histories.num_points() > 0,
    ensures
        plot.cleared().cleared() == plot.cleared(),
{
    let once = plot.histories.only_latest();
    let twice = once.only_latest();
    assert(twice.mean_dimensions =~~= once.mean_dimensions);
    assert(twice.sqrt_eigenvalues =~~= once.sqrt_eigenvalues);
    assert(twice.coord_axis_scales =~~= once.coord_axis_scales);
    assert(twice =~= once);
}

/// Clearing right after a data point was recorded leaves what that data point alone would have
/// left, whatever was recorded before it.
pub proof fn law_clearing_forgets_earlier_points(plot: PlotModel, point: DataPoint)
    requires
        plot.valid(),
        point.has_dimensions(plot.histories.dimensions()),
    ensures
        plot.with_point(point).cleared() == PlotModel::empty(
            plot.histories.dimensions(),
            plot.options,
        ).with_point(point),
{
    let left = plot.with_point(point).cleared();
    let fresh = PlotModel::empty(plot.histories.dimensions(), plot.options).with_point(point);
    assert(left.histories.mean_dimensions =~~= fresh.histories.mean_dimensions);
    assert(left.histories.sqrt_eigenvalues =~~= fresh.histories.sqrt_eigenvalues);
    assert(left.histories.coord_axis_scales =~~= fresh.histories.coord_axis_scales);
    assert(left.histories =~= fresh.histories);
    assert(left =~= fresh);
}

/// The axis scales of a data point are put in ascending order, each of them listed once, and
/// recorded in that order with the offset applied.
pub proof fn law_axis_scales_ascend(point: DataPoint)
    ensures
        point.recorded_axis_scales().len() == point.sqrt_eigenvalues.len(),
        is_ascending_order(point.axis_scales(), ascending_order(point.axis_scales())),
        forall|k: int, m: int|
            0 <= k <= m < point.sqrt_eigenvalues.len() ==> sort_key(
                point.axis_scales()[#[trigger] ascending_order(point.axis_scales())[k]],
            ) <= sort_key(point.axis_scales()[#[trigger] ascending_order(point.axis_scales())[m]]),
        forall|k: int|
            0 <= k < point.sqrt_eigenvalues.len() ==> #[trigger] point.recorded_axis_scales()[k]
                == point.sqrt_eigenvalues@[ascending_order(point.axis_scales())[k]].applied(),
{
    let scales = point.axis_scales();
    let order = ascending_order(scales);
    law_ascending_order_exists(scales);
    assert forall|k: int, m: int| 0 <= k <= m < scales.len() implies sort_key(
        scales[#[trigger] order[k]],
    ) <= sort_key(scales[#[trigger] order[m]]) by {
        if k < m {
            assert(precedes(scales, order[k], order[m]));
        }
    }
}

/// The axis scales are recorded in ascending order, where they are numbers and the sums with the
/// offset keep the order.
pub proof fn law_recorded_axis_scales_ascend(point: DataPoint, k: int, m: int)
    requires
        0 <= k <= m < point.sqrt_eigenvalues.len(),
        forall|i: int|
            0 <= i < point.sqrt_eigenvalues.len()
                ==> !(#[trigger] point.sqrt_eigenvalues@[i]).value.nan(),
        forall|i: int, j: int|
            0 <= i < point.sqrt_eigenvalues.len() && 0 <= j < point.sqrt_eigenvalues.len()
                ==> #[trigger] sums_keep_order(
                point.sqrt_eigenvalues@[i],
                point.sqrt_eigenvalues@[j],
            ),
    ensures
        point.recorded_axis_scales()[k].le(point.recorded_axis_scales()[m]),
{
    let scales = point.axis_scales();
    let order = ascending_order(scales);
    law_axis_scales_ascend(point);
    let a = point.sqrt_eigenvalues@[order[k]];
    let b = point.sqrt_eigenvalues@[order[m]];
    assert(scales[order[k]] == a.value);
    assert(scales[order[m]] == b.value);
    assert(sums_keep_order(a, b));
    law_applying_offsets_keeps_order(a, b);
}

/// The two axis scales whose ratio is the largest between any two: where all scales are numbers,
/// the smallest is the one listed first in ascending order, and the largest the one listed last.
pub proof fn law_axis_ratio_operands(point: DataPoint, found: Extremes)
    requires
        point.sqrt_eigenvalues.len() > 0,
        forall|i: int|
            0 <= i < point.sqrt_eigenvalues.len()
                ==> !(#[trigger] point.sqrt_eigenvalues@[i]).value.nan(),
        spans(point.axis_scales(), found),
    ensures
        found.low == point.axis_scales()[ascending_order(point.axis_scales()).first()],
        found.high == point.axis_scales()[ascending_order(point.axis_scales()).last()],
        forall|i: int|
            0 <= i < point.axis_scales().len() ==> found.low.le(#[trigger] point.axis_scales()[i])
                && point.axis_scales()[i].le(found.high),
{
    let scales = point.axis_scales();
    let order = ascending_order(scales);
    let n = scales.len() as int;
    law_ascending_order_exists(scales);
    assert forall|i: int| 0 <= i < n implies !(#[trigger] scales[i]).nan() by {
        assert(!point.sqrt_eigenvalues@[i].value.nan());
    }
    let first = order[0];
    let last = order[n - 1];
    assert forall|i: int| 0 <= i < n && i != first implies #[trigger] precedes(
        scales,
        first,
        i,
    ) by {
        assert(order.contains(i));
        let k = choose|k: int| 0 <= k < order.len() && order[k] == i;
        assert(precedes(scales, order[0], order[k]));
    }
    assert forall|i: int| 0 <= i < n && i != last implies #[trigger] precedes(
        scales,
        i,
        last,
    ) by {
        assert(order.contains(i));
        let k = choose|k: int| 0 <= k < order.len() && order[k] == i;
        assert(precedes(scales, order[k], order[n - 1]));
    }
    assert forall|j: int| 0 <= j < n implies scales[first].rank() <= (#[trigger] scales[j]).rank()
        && (j < first ==> scales[first].rank() < scales[j].rank()) by {
        if j != first {
            assert(precedes(scales, first, j));
        }
    }
    assert forall|j: int| 0 <= j < n implies (#[trigger] scales[j]).rank() <= scales[last].rank()
        && (last < j ==> scales[j].rank() < scales[last].rank()) by {
        if j != last {
            assert(precedes(scales, j, last));
        }
    }
    assert(is_first_lowest(scales, first));
    assert(is_last_highest(scales, last));
    law_extremes_are_determined(
        scales,
        found,
        Extremes { low: scales[first], high: scales[last] },
    );
}

// Charts.

/// Whether everything that an element draws lies in the range.
pub open spec fn element_in_range(element: ElementModel, range: Extremes) -> bool {
    match element {
        ElementModel::Line { label, color, points } => forall|k: int|
            0 <= k < points.len() ==> range.low.le((#[trigger] points[k]).1) && points[k].1.le(
                range.high,
            ),
        ElementModel::Cross { x, y, size, color } => range.low.le(y) && y.le(range.high),
    }
}

/// Whether everything that a chart draws lies in the range of its y axis.
pub open spec fn chart_in_range(chart: ChartModel) -> bool {
    forall|i: int|
        0 <= i < chart.elements.len() ==> element_in_range(
            #[trigger] chart.elements[i],
            chart.y_range,
        )
}

/// Points whose numbers all count for the range lie in the range.
proof fn lemma_points_in_range(
    x: Seq<usize>,
    y: Seq<Value>,
    values: Seq<Value>,
    range: Extremes,
)
    requires
        spans(values, range),
        forall|i: int|
            0 <= i < y.len() && !(#[trigger] y[i]).nan() ==> values.contains(y[i]),
    ensures
        forall|k: int|
            0 <= k < points(x, y).len() ==> range.low.le((#[trigger] points(x, y)[k]).1)
                && points(x, y)[k].1.le(range.high),
{
    assert forall|k: int| 0 <= k < points(x, y).len() implies range.low.le(
        (#[trigger] points(x, y)[k]).1,
    ) && points(x, y)[k].1.le(range.high) by {
        let point = points(x, y)[k];
        assert(points(x, y).contains(point));
        law_points_are_the_numbers(x, y, point);
        let i = choose|i: int|
            #![trigger x[i], y[i]]
            0 <= i < x.len() && i < y.len() && point == (x[i], y[i]);
        assert(values.contains(y[i]));
        let j = choose|j: int| 0 <= j < values.len() && values[j] == y[i];
        law_range_encompasses_all_numbers(values, range, j);
    }
}

/// A distance counts for the range where it is a number and not that of a minimum that is
/// reached once only.
pub(crate) proof fn lemma_distance_counts(
    distances: Seq<Value>,
    min_place: int,
    min_count: nat,
    i: int,
)
    requires
        0 <= i < distances.len(),
        !distances[i].nan(),
        min_count > 1 || i != min_place,
    ensures
        ranged_distances(distances, min_place, min_count).contains(distances[i]),
{
    broadcast use vstd::seq_lib::group_filter_ensures;

    let all = numbered(distances);
    let counts = counts_for_range(min_place, min_count);
    assert(counts(all[i]));
    assert(all.filter(counts).contains(all[i]));
    let k = choose|k: int| 0 <= k < all.filter(counts).len() && all.filter(counts)[k] == all[i];
    assert(all.filter(counts).map_values(entry_value())[k] == distances[i]);
}

/// A value of a part occurs in the whole.
pub(crate) proof fn lemma_part_of_sum(
    a: Seq<Value>,
    b: Seq<Value>,
    c: Seq<Value>,
    d: Seq<Value>,
    value: Value,
)
    requires
        a.contains(value) || b.contains(value) || c.contains(value) || d.contains(value),
    ensures
        (a + b + c + d).contains(value),
{
    let whole = a + b + c + d;
    if a.contains(value) {
        let k = choose|k: int| 0 <= k < a.len() && a[k] == value;
        assert(whole[k] == value);
    } else if b.contains(value) {
        let k = choose|k: int| 0 <= k < b.len() && b[k] == value;
        assert(whole[a.len() + k] == value);
    } else if c.contains(value) {
        let k = choose|k: int| 0 <= k < c.len() && c[k] == value;
        assert(whole[a.len() + b.len() + k] == value);
    } else {
        let k = choose|k: int| 0 <= k < d.len() && d[k] == value;
        assert(whole[a.len() + b.len() + c.len() + k] == value);
    }
}

/// The y axis of the chart of single valued histories encompasses everything that is drawn on
/// it, whatever the distances are.
pub proof fn law_single_dimensioned_chart_is_in_range(
    histories: Histories,
    distances: Seq<Value>,
    scientific_notation: bool,
)
    requires
        histories.aligned(),
        histories.num_points() > 0,
        distances.len() == histories.num_points(),
    ensures
        chart_in_range(histories.single_dimensioned_chart(distances, scientific_notation)),
{
    let evals = histories.function_evals;
    let best = histories.best_function_value;
    let absolute = absolute_values(best);
    let place = histories.min_place();
    let left = histories.num_left();
    let ranged = ranged_distances(distances, place, histories.min_count());
    let values = histories.single_dimensioned_values(distances);
    let range = range_of(values);
    law_extremes_exist(values);
    law_minimum_exists(best);
    assert(is_minimum(best, place));
    assert forall|i: int|
        0 <= i < distances.len() && !distances[i].nan() && (i < left || i > place) implies
        #[trigger] values.contains(distances[i]) by {
        lemma_distance_counts(distances, place, histories.min_count(), i);
        lemma_part_of_sum(ranged, absolute, histories.sigma, histories.axis_ratio, distances[i]);
    }
    assert forall|i: int| 0 <= i < best.len() implies values.contains(
        #[trigger] absolute[i],
    ) by {
        lemma_part_of_sum(ranged, absolute, histories.sigma, histories.axis_ratio, absolute[i]);
    }
    assert forall|i: int| 0 <= i < best.len() implies values.contains(
        #[trigger] histories.sigma[i],
    ) by {
        lemma_part_of_sum(
            ranged,
            absolute,
            histories.sigma,
            histories.axis_ratio,
            histories.sigma[i],
        );
    }
    assert forall|i: int| 0 <= i < best.len() implies values.contains(
        #[trigger] histories.axis_ratio[i],
    ) by {
        lemma_part_of_sum(
            ranged,
            absolute,
            histories.sigma,
            histories.axis_ratio,
            histories.axis_ratio[i],
        );
    }
    assert forall|i: int|
        0 <= i < distances.take(left).len() && !(#[trigger] distances.take(left)[i]).nan() implies
        values.contains(distances.take(left)[i]) by {
        assert(values.contains(distances[i]));
    }
    assert forall|i: int|
        0 <= i < distances.skip(place + 1).len() && !(#[trigger] distances.skip(
            place + 1,
        )[i]).nan() implies values.contains(distances.skip(place + 1)[i]) by {
        assert(values.contains(distances[place + 1 + i]));
    }
    lemma_points_in_range(evals.take(left), distances.take(left), values, range);
    lemma_points_in_range(evals.skip(place + 1), distances.skip(place + 1), values, range);
    lemma_points_in_range(evals, absolute, values, range);
    lemma_points_in_range(evals, histories.sigma, values, range);
    lemma_points_in_range(evals, histories.axis_ratio, values, range);
    if !histories.min_value().nan() {
        let y = absolute[place];
        assert(values.contains(y));
        let j = choose|j: int| 0 <= j < values.len() && values[j] == y;
        law_range_encompasses_all_numbers(values, range, j);
    }
}

/// The entries of rows occur in the list of all entries.
pub(crate) proof fn lemma_row_entry_occurs(rows: Seq<Seq<Value>>, i: int, k: int)
    requires
        0 <= i < rows.len(),
        0 <= k < rows[i].len(),
    ensures
        rows.flatten().contains(rows[i][k]),
    decreases rows.len(),
{
    let rest = rows.drop_first().flatten();
    assert(rows.flatten() == rows.first() + rest);
    if i == 0 {
        assert((rows.first() + rest)[k] == rows[i][k]);
    } else {
        lemma_row_entry_occurs(rows.drop_first(), i - 1, k);
        let m = choose|m: int| 0 <= m < rest.len() && rest[m] == rows[i][k];
        assert((rows.first() + rest)[rows.first().len() + m] == rows[i][k]);
    }
}

/// The y axis of a chart with one line for each dimension encompasses everything that is drawn
/// on it.
pub proof fn law_row_lines_are_in_range(
    evals: Seq<usize>,
    rows: Seq<Seq<Value>>,
    label: RowLabel,
    range: Extremes,
)
    requires
        spans(rows.flatten(), range),
    ensures
        forall|i: int|
            0 <= i < rows.len() ==> element_in_range(
                #[trigger] row_lines(evals, rows, label)[i],
                range,
            ),
{
    assert forall|i: int| 0 <= i < rows.len() implies element_in_range(
        #[trigger] row_lines(evals, rows, label)[i],
        range,
    ) by {
        assert forall|k: int| 0 <= k < rows[i].len() implies rows.flatten().contains(
            #[trigger] rows[i][k],
        ) by {
            lemma_row_entry_occurs(rows, i, k);
        }
        lemma_points_in_range(evals, rows[i], rows.flatten(), range);
    }
}

/// The y axes of the charts of the mean, the axis scales and the coordinate axis standard
/// deviations encompass everything that is drawn on them.
pub proof fn law_dimension_charts_are_in_range(histories: Histories, scientific_notation: bool)
    ensures
        chart_in_range(histories.mean_chart(scientific_notation)),
        chart_in_range(histories.sqrt_eigenvalues_chart(scientific_notation)),
        chart_in_range(histories.coord_axis_scales_chart(scientific_notation)),
{
    let evals = histories.function_evals;
    let means = histories.mean_dimensions;
    let axes = histories.sqrt_eigenvalues;
    let coords = histories.coord_axis_scales;
    law_extremes_exist(means.flatten());
    law_extremes_exist(axes.flatten());
    law_extremes_exist(coords.flatten());
    law_row_lines_are_in_range(evals, means, RowLabel::Mean, range_of(means.flatten()));
    law_row_lines_are_in_range(evals, axes, RowLabel::Absent, range_of(axes.flatten()));
    law_row_lines_are_in_range(evals, coords, RowLabel::Number, range_of(coords.flatten()));
}

/// What is drawn depends on the recorded histories and the notation of the labels only, not on
/// the gap between data points nor on when the last one was recorded.
pub proof fn law_page_depends_on_histories_and_notation(
    p: PlotModel,
    q: PlotModel,
    distances: Seq<Value>,
)
    requires
        p.histories == q.histories,
        p.options.scientific_notation == q.options.scientific_notation,
    ensures
        p.page(distances) == q.page(distances),
{
}

/// The two parts of the distance line draw all distances where the minimum is reached more than
/// once, and all but that of the minimum where it is not.
pub proof fn law_distance_line_leaves_out_a_single_minimum(
    histories: Histories,
    distances: Seq<Value>,
)
    requires
        histories.aligned(),
        histories.num_points() > 0,
        distances.len() == histories.num_points(),
    ensures
        ({
            let evals = histories.function_evals;
            let place = histories.min_place();
            let elements = histories.single_dimensioned_elements(distances);
            let left = elements[0]->points;
            let right = elements[1]->points;
            &&& histories.min_count() > 1 ==> left + right == points(evals, distances)
            &&& histories.min_count() <= 1 ==> left + points(
                seq![evals[place]],
                seq![distances[place]],
            ) + right == points(evals, distances)
        }),
{
    let evals = histories.function_evals;
    let place = histories.min_place();
    law_minimum_exists(histories.best_function_value);
    assert(is_minimum(histories.best_function_value, place));
    law_parts_make_the_line(evals, distances, place + 1);
    let x = evals.take(place + 1);
    let y = distances.take(place + 1);
    law_parts_make_the_line(x, y, place);
    assert(x.take(place) =~= evals.take(place));
    assert(y.take(place) =~= distances.take(place));
    assert(x.skip(place) =~= seq![evals[place]]);
    assert(y.skip(place) =~= seq![distances[place]]);
}

/// The overall best function value is reached at least once where it is a number, and counts as
/// never reached where it is not.
pub proof fn law_minimum_is_reached(histories: Histories)
    requires
        histories.aligned(),
        histories.num_points() > 0,
    ensures
        histories.min_count() >= 1 <==> !histories.min_value().nan(),
{
    broadcast use vstd::seq_lib::group_filter_ensures;

    let best = histories.best_function_value;
    let equal = equal_to(histories.min_value());
    law_minimum_exists(best);
    if !histories.min_value().nan() {
        assert(equal(best[histories.min_place()]));
        assert(best.filter(equal).contains(best[histories.min_place()]));
    } else if histories.min_count() > 0 {
        assert(equal(best.filter(equal)[0]));
    }
}

/// Whether two histories of function values are ordered alike. A value is a number just where it
/// is at most itself, so the same places of both hold numbers.
pub open spec fn ordered_alike(p: Seq<Value>, q: Seq<Value>) -> bool {
    &&& p.len() == q.len()
    &&& forall|i: int, j: int|
        #![trigger p[i], p[j]]
        #![trigger q[i], q[j]]
        0 <= i < p.len() && 0 <= j < p.len() ==> (p[i].le(p[j]) <==> q[i].le(q[j]))
}

proof fn lemma_same_numbers(p: Seq<Value>, q: Seq<Value>, i: int)
    requires
        ordered_alike(p, q),
        0 <= i < p.len(),
    ensures
        p[i].nan() <==> q[i].nan(),
{
    assert(p[i].le(p[i]) <==> q[i].le(q[i]));
}

/// Values that are ordered alike have their minimum at the same place.
proof fn lemma_same_minimum_place(p: Seq<Value>, q: Seq<Value>)
    requires
        ordered_alike(p, q),
        p.len() > 0,
    ensures
        minimum_place(p) == minimum_place(q),
{
    let r = minimum_place(p);
    law_minimum_exists(p);
    law_minimum_exists(q);
    assert forall|i: int| 0 <= i < p.len() implies p[i].nan() == (#[trigger] q[i]).nan() by {
        lemma_same_numbers(p, q, i);
    }
    if has_number(p) {
        assert(!q[r].nan());
        assert forall|j: int| 0 <= j < q.len() && !(#[trigger] q[j]).nan() implies q[r].rank()
            <= q[j].rank() by {
            assert(p[r].le(p[j]));
        }
        assert forall|j: int| 0 <= j < r && !(#[trigger] q[j]).nan() implies q[r].rank()
            < q[j].rank() by {
            assert(!p[j].le(p[r]));
            assert(!q[j].le(q[r]));
        }
        assert(is_first_lowest(q, r));
    } else {
        assert(!has_number(q)) by {
            if has_number(q) {
                let i = choose|i: int| 0 <= i < q.len() && !(#[trigger] q[i]).nan();
                assert(!p[i].nan());
            }
        }
    }
    law_minimum_is_unique(q, r, minimum_place(q));
}

/// Values that are ordered alike repeat alike.
proof fn lemma_same_occurrences(p: Seq<Value>, q: Seq<Value>, r: int, n: int)
    requires
        ordered_alike(p, q),
        0 <= r < p.len(),
        0 <= n <= p.len(),
    ensures
        occurrences(p.take(n), p[r]) == occurrences(q.take(n), q[r]),
    decreases n,
{
    reveal(Seq::filter);
    if n > 0 {
        lemma_same_occurrences(p, q, r, n - 1);
        assert(p.take(n).drop_last() =~= p.take(n - 1));
        assert(q.take(n).drop_last() =~= q.take(n - 1));
        assert(p.take(n).last() == p[n - 1]);
        assert(q.take(n).last() == q[n - 1]);
        assert(p[r].le(p[n - 1]) <==> q[r].le(q[n - 1]));
        assert(p[n - 1].le(p[r]) <==> q[n - 1].le(q[r]));
    }
}

/// The two parts of the distance line and the place of the cross depend only on how the recorded
/// function values are ordered and on their differences, not on the values themselves.
pub proof fn law_distance_line_depends_on_order_and_differences(
    p: Histories,
    q: Histories,
    distances: Seq<Value>,
)
    requires
        p.aligned(),
        q.aligned(),
        p.num_points() > 0,
        p.function_evals == q.function_evals,
        ordered_alike(p.best_function_value, q.best_function_value),
    ensures
        ({
            let a = p.single_dimensioned_elements(distances);
            let b = q.single_dimensioned_elements(distances);
            &&& a[0] == b[0]
            &&& a[1] == b[1]
            &&& a[3] is Cross <==> b[3] is Cross
            &&& a[3] is Cross <==> !p.min_value().nan()
            &&& a[3] is Cross ==> a[3]->x == b[3]->x
        }),
{
    let ps = p.best_function_value;
    let qs = q.best_function_value;
    let r = p.min_place();
    lemma_same_minimum_place(ps, qs);
    law_minimum_exists(ps);
    lemma_same_numbers(ps, qs, r);
    lemma_same_occurrences(ps, qs, r, ps.len() as int);
    assert(ps.take(ps.len() as int) =~= ps);
    assert(qs.take(qs.len() as int) =~= qs);
}

/// Moving all recorded function values by the same amount changes neither the points of the
/// distance line nor the place of the cross. The values are integers that a double holds exactly,
/// so their differences do not change, and `distance` is what is drawn of a difference.
pub proof fn law_moving_all_values_keeps_the_distance_line(
    p: Histories,
    q: Histories,
    values: Seq<int>,
    amount: int,
    distance: spec_fn(int) -> Value,
)
    requires
        p.aligned(),
        q.aligned(),
        p.num_points() > 0,
        p.function_evals == q.function_evals,
        values.len() == p.num_points(),
        forall|i: int| 0 <= i < values.len() ==> fits(#[trigger] values[i]),
        forall|i: int| 0 <= i < values.len() ==> fits(#[trigger] values[i] + amount),
        p.best_function_value == values.map_values(|n: int| integer_value(n)),
        q.best_function_value == values.map_values(|n: int| integer_value(n + amount)),
    ensures
        ({
            let moved = values.map_values(|n: int| n + amount);
            let p_distances = values.map_values(|n: int| distance(n - values[p.min_place()]));
            let q_distances = moved.map_values(|n: int| distance(n - moved[q.min_place()]));
            let a = p.single_dimensioned_elements(p_distances);
            let b = q.single_dimensioned_elements(q_distances);
            &&& a[0] == b[0]
            &&& a[1] == b[1]
            &&& a[3] is Cross
            &&& b[3] is Cross
            &&& a[3]->x == b[3]->x
        }),
{
    let ps = p.best_function_value;
    let qs = q.best_function_value;
    assert forall|i: int, j: int|
        #![trigger ps[i], ps[j]]
        #![trigger qs[i], qs[j]]
        0 <= i < ps.len() && 0 <= j < ps.len() implies (ps[i].le(ps[j]) <==> qs[i].le(qs[j])) by {
        law_integers_keep_their_order(values[i], values[j]);
        law_integers_keep_their_order(values[i] + amount, values[j] + amount);
    }
    lemma_same_minimum_place(ps, qs);
    law_minimum_exists(ps);
    let r = p.min_place();
    law_integers_keep_their_order(values[r], values[r]);
    let moved = values.map_values(|n: int| n + amount);
    let p_distances = values.map_values(|n: int| distance(n - values[p.min_place()]));
    let q_distances = moved.map_values(|n: int| distance(n - moved[q.min_place()]));
    assert forall|i: int| 0 <= i < values.len() implies p_distances[i] == q_distances[i] by {
        assert(moved[i] - moved[r] == values[i] - values[r]);
    }
    assert(p_distances =~= q_distances);
    law_distance_line_depends_on_order_and_differences(p, q, p_distances);
}

/// Whether the function evaluations of the data points do not decrease.
pub open spec fn evals_ascend(histories: Histories) -> bool {
    forall|i: int, j: int|
        0 <= i <= j < histories.function_evals.len() ==> histories.function_evals[i]
            <= histories.function_evals[j]
}

/// Data points that are recorded as function evaluations go on can be drawn.
pub proof fn law_recording_in_time_keeps_plot_drawable(histories: Histories, point: DataPoint)
    requires
        evals_ascend(histories),
        histories.num_points() > 0 ==> histories.function_evals.last() <= point.function_evals,
    ensures
        evals_ascend(histories.with_point(point)),
        histories.with_point(point).drawable(),
{
}

/// Whether everything that an element draws lies between two function evaluations.
pub open spec fn element_in_time(element: ElementModel, start: int, end: int) -> bool {
    match element {
        ElementModel::Line { label, color, points } => forall|k: int|
            0 <= k < points.len() ==> start <= (#[trigger] points[k]).0 <= end,
        ElementModel::Cross { x, y, size, color } => start <= x <= end,
    }
}

/// Whether everything that a chart draws lies on its x axis.
pub open spec fn chart_in_time(chart: ChartModel) -> bool {
    forall|i: int|
        0 <= i < chart.elements.len() ==> element_in_time(
            #[trigger] chart.elements[i],
            chart.x_start,
            chart.x_end,
        )
}

proof fn lemma_points_in_time(x: Seq<usize>, y: Seq<Value>, start: int, end: int)
    requires
        forall|i: int| 0 <= i < x.len() ==> start <= #[trigger] x[i] <= end,
    ensures
        forall|k: int|
            0 <= k < points(x, y).len() ==> start <= (#[trigger] points(x, y)[k]).0 <= end,
{
    assert forall|k: int| 0 <= k < points(x, y).len() implies start <= (#[trigger] points(
        x,
        y,
    )[k]).0 <= end by {
        let point = points(x, y)[k];
        assert(points(x, y).contains(point));
        law_points_are_the_numbers(x, y, point);
    }
}

proof fn lemma_row_lines_in_time(
    evals: Seq<usize>,
    rows: Seq<Seq<Value>>,
    label: RowLabel,
    start: int,
    end: int,
)
    requires
        forall|i: int| 0 <= i < evals.len() ==> start <= #[trigger] evals[i] <= end,
    ensures
        forall|i: int|
            0 <= i < rows.len() ==> element_in_time(
                #[trigger] row_lines(evals, rows, label)[i],
                start,
                end,
            ),
{
    assert forall|i: int| 0 <= i < rows.len() implies element_in_time(
        #[trigger] row_lines(evals, rows, label)[i],
        start,
        end,
    ) by {
        lemma_points_in_time(evals, rows[i], start, end);
    }
}

/// The x axis of each chart encompasses everything that is drawn on it, where the function
/// evaluations do not decrease.
pub proof fn law_charts_are_in_time(
    histories: Histories,
    distances: Seq<Value>,
    scientific_notation: bool,
)
    requires
        histories.aligned(),
        histories.num_points() > 0,
        evals_ascend(histories),
        distances.len() == histories.num_points(),
    ensures
        chart_in_time(histories.single_dimensioned_chart(distances, scientific_notation)),
        chart_in_time(histories.mean_chart(scientific_notation)),
        chart_in_time(histories.sqrt_eigenvalues_chart(scientific_notation)),
        chart_in_time(histories.coord_axis_scales_chart(scientific_notation)),
{
    let evals = histories.function_evals;
    let place = histories.min_place();
    let left = histories.num_left();
    let start = evals.first() as int;
    let end = evals.last() as int;
    law_minimum_exists(histories.best_function_value);
    assert(forall|i: int| 0 <= i < evals.len() ==> start <= #[trigger] evals[i] <= end);
    lemma_points_in_time(evals.take(left), distances.take(left), start, end);
    lemma_points_in_time(evals.skip(place + 1), distances.skip(place + 1), start, end);
    lemma_points_in_time(evals, absolute_values(histories.best_function_value), start, end);
    lemma_points_in_time(evals, histories.sigma, start, end);
    lemma_points_in_time(evals, histories.axis_ratio, start, end);
    lemma_row_lines_in_time(evals, histories.mean_dimensions, RowLabel::Mean, start, end);
    lemma_row_lines_in_time(evals, histories.sqrt_eigenvalues, RowLabel::Absent, start, end);
    lemma_row_lines_in_time(evals, histories.coord_axis_scales, RowLabel::Number, start, end);
}

// Labels and colours.

/// The colours of the lines repeat after as many lines as the palette has colours.
pub proof fn law_colors_repeat(index: int)
    ensures
        palette_color(index + palette99().len()) == palette_color(index),
{
    assert(palette99().len() == 21);
}

proof fn lemma_decimal_is_injective(a: nat, b: nat)
    requires
        decimal(a) == decimal(b),
    ensures
        a == b,
    decreases a,
{
    lemma_decimal_length(a);
    lemma_decimal_length(b);
    assert(decimal(a).last() == digit((a % 10) as int));
    assert(decimal(b).last() == digit((b % 10) as int));
    assert(a % 10 == b % 10);
    if a >= 10 && b >= 10 {
        assert(decimal(a).drop_last() =~= decimal(a / 10));
        assert(decimal(b).drop_last() =~= decimal(b / 10));
        lemma_decimal_is_injective(a / 10, b / 10);
    }
}

proof fn lemma_decimal_length(n: nat)
    ensures
        n < 10 ==> decimal(n).len() == 1,
        n >= 10 ==> decimal(n).len() > 1,
    decreases n,
{
    if n >= 10 {
        lemma_decimal_length(n / 10);
    }
}

/// Different dimensions have different labels.
pub proof fn law_labels_differ(a: nat, b: nat)
    requires
        a != b,
    ensures
        decimal(a) != decimal(b),
        mean_label(a) != mean_label(b),
{
    if decimal(a) == decimal(b) {
        lemma_decimal_is_injective(a, b);
    }
    if mean_label(a) == mean_label(b) {
        let n = mean_label(a).len() - 1;
        assert(mean_label(a).subrange(2, n) =~= decimal(a));
        assert(mean_label(b).subrange(2, n) =~= decimal(b));
    }
}

} // verus!

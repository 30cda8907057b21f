//! What each chart shows of the recorded histories, entry by entry.
use crate::chart::{
    Chart, ChartModel, Element, ElementModel, LabelFormat, LegendPosition, LineColor,
};
use crate::data::Histories;
use crate::label::{decimal, digit, mean_label};
use crate::laws::{lemma_distance_counts, lemma_part_of_sum, lemma_row_entry_occurs};
use crate::layout::{
    absolute_values, counts_for_range, numbered, ranged_distances, row_label, row_line, RowLabel,
};
use crate::palette::palette99;
use crate::plot::{Page, PlotModel};
use crate::points::{drawable, pairs, points};
use crate::range::{minimum_place, occurrences, range_of};
use crate::value::Value;
use crate::value_laws::{law_place_of_the_minimum, law_range_of_values, law_sign_bit};
use vstd::prelude::*;

verus! {

// Lines.

/// Whether the points are those at `places` of `x` and `y`, and `places` lists in ascending order
/// all places from `from` up to `to` whose y coordinate is a number.
pub open spec fn drawn_at(
    drawn: Seq<(usize, Value)>,
    x: Seq<usize>,
    y: Seq<Value>,
    from: int,
    to: int,
    places: Seq<int>,
) -> bool {
    &&& places.len() == drawn.len()
    &&& forall|j: int|
        0 <= j < places.len() ==> from <= #[trigger] places[j] < to && !y[places[j]].nan()
            && drawn[j] == (x[places[j]], y[places[j]])
    &&& forall|i: int, j: int|
        0 <= i < j < places.len() ==> #[trigger] places[i] < #[trigger] places[j]
    &&& forall|k: int| from <= k < to && !(#[trigger] y[k]).nan() ==> places.contains(k)
}

/// Whether the points are exactly the pairs of coordinates from place `from` up to place `to`
/// whose y coordinate is a number, in their order.
pub open spec fn draws(
    drawn: Seq<(usize, Value)>,
    x: Seq<usize>,
    y: Seq<Value>,
    from: int,
    to: int,
) -> bool {
    exists|places: Seq<int>| #[trigger] drawn_at(drawn, x, y, from, to, places)
}

/// Whether the `j`th point has the coordinates at place `k`.
pub open spec fn is_at(
    drawn: Seq<(usize, Value)>,
    j: int,
    x: Seq<usize>,
    y: Seq<Value>,
    k: int,
) -> bool {
    drawn[j] == (x[k], y[k])
}

/// Whether the `j`th point has the coordinates at a place from `from` up to `to`.
pub open spec fn is_from(
    drawn: Seq<(usize, Value)>,
    j: int,
    x: Seq<usize>,
    y: Seq<Value>,
    from: int,
    to: int,
) -> bool {
    exists|k: int| from <= k < to && #[trigger] is_at(drawn, j, x, y, k)
}

/// Whether the `i`th point has the coordinates at a place before one whose coordinates the `j`th
/// point has.
pub open spec fn is_before(
    drawn: Seq<(usize, Value)>,
    i: int,
    j: int,
    x: Seq<usize>,
    y: Seq<Value>,
) -> bool {
    exists|k: int, m: int|
        k < m && #[trigger] is_at(drawn, i, x, y, k) && #[trigger] is_at(drawn, j, x, y, m)
}

/// A line draws a point for every number, draws no other points, and draws none of them out of
/// order.
pub proof fn law_lines_draw_every_number(
    drawn: Seq<(usize, Value)>,
    x: Seq<usize>,
    y: Seq<Value>,
    from: int,
    to: int,
)
    requires
        draws(drawn, x, y, from, to),
    ensures
        forall|k: int|
            from <= k < to && !(#[trigger] y[k]).nan() ==> drawn.contains((x[k], y[k])),
        forall|j: int| 0 <= j < drawn.len() ==> !(#[trigger] drawn[j]).1.nan(),
        forall|j: int| 0 <= j < drawn.len() ==> #[trigger] is_from(drawn, j, x, y, from, to),
        forall|i: int, j: int|
            0 <= i < j < drawn.len() ==> #[trigger] is_before(drawn, i, j, x, y),
{
    let places = choose|places: Seq<int>| #[trigger] drawn_at(drawn, x, y, from, to, places);
    assert forall|k: int| from <= k < to && !(#[trigger] y[k]).nan() implies drawn.contains(
        (x[k], y[k]),
    ) by {
        assert(places.contains(k));
        let j = choose|j: int| 0 <= j < places.len() && places[j] == k;
        assert(drawn[j] == (x[k], y[k]));
    }
    assert forall|j: int| 0 <= j < drawn.len() implies !(#[trigger] drawn[j]).1.nan() by {
        assert(from <= places[j] < to);
    }
    assert forall|j: int| 0 <= j < drawn.len() implies #[trigger] is_from(
        drawn,
        j,
        x,
        y,
        from,
        to,
    ) by {
        assert(from <= places[j] < to);
        assert(is_at(drawn, j, x, y, places[j]));
    }
    assert forall|i: int, j: int| 0 <= i < j < drawn.len() implies #[trigger] is_before(
        drawn,
        i,
        j,
        x,
        y,
    ) by {
        assert(places[i] < places[j]);
        assert(is_at(drawn, i, x, y, places[i]));
        assert(is_at(drawn, j, x, y, places[j]));
    }
}

/// What a line draws is determined: two lines that draw the same coordinates have the same
/// points, as many and in the same order.
pub proof fn law_drawn_points_are_determined(
    a: Seq<(usize, Value)>,
    b: Seq<(usize, Value)>,
    x: Seq<usize>,
    y: Seq<Value>,
    from: int,
    to: int,
)
    requires
        draws(a, x, y, from, to),
        draws(b, x, y, from, to),
    ensures
        a == b,
{
    let p = choose|places: Seq<int>| #[trigger] drawn_at(a, x, y, from, to, places);
    let q = choose|places: Seq<int>| #[trigger] drawn_at(b, x, y, from, to, places);
    assert forall|j: int| 0 <= j < p.len() implies j < q.len() && p[j] == q[j] by {
        lemma_same_drawn_place(a, b, x, y, from, to, p, q, j);
    }
    if p.len() < q.len() {
        let j = p.len() as int;
        lemma_same_drawn_place(b, a, x, y, from, to, q, p, j);
    }
    if q.len() < p.len() {
        let j = q.len() as int;
        lemma_same_drawn_place(a, b, x, y, from, to, p, q, j);
    }
    assert forall|j: int| 0 <= j < a.len() implies a[j] == b[j] by {
        assert(p[j] == q[j]);
    }
    assert(a =~= b);
}

proof fn lemma_same_drawn_place(
    a: Seq<(usize, Value)>,
    b: Seq<(usize, Value)>,
    x: Seq<usize>,
    y: Seq<Value>,
    from: int,
    to: int,
    p: Seq<int>,
    q: Seq<int>,
    j: int,
)
    requires
        drawn_at(a, x, y, from, to, p),
        drawn_at(b, x, y, from, to, q),
        0 <= j < p.len(),
    ensures
        j < q.len(),
        p[j] == q[j],
    decreases j,
{
    assert forall|i: int| 0 <= i < j implies i < q.len() && p[i] == q[i] by {
        lemma_same_drawn_place(a, b, x, y, from, to, p, q, i);
    }
    assert(!y[p[j]].nan());
    assert(q.contains(p[j]));
    let m = choose|m: int| 0 <= m < q.len() && q[m] == p[j];
    if m < j {
        assert(p[m] < p[j]);
    } else if m > j {
        assert(!y[q[j]].nan());
        assert(p.contains(q[j]));
        let n = choose|n: int| 0 <= n < p.len() && p[n] == q[j];
        assert(q[j] < q[m]);
        if n < j {
            assert(q[n] < q[j]);
        } else if n > j {
            assert(p[j] < p[n]);
        }
    }
}

/// The points of two lists of coordinates are those of every number, as far as both lists reach.
pub proof fn law_points_draw_both_lists(x: Seq<usize>, y: Seq<Value>)
    ensures
        draws(
            points(x, y),
            x,
            y,
            0,
            if x.len() <= y.len() {
                x.len() as int
            } else {
                y.len() as int
            },
        ),
{
    let n = pairs(x, y).len() as int;
    let places = lemma_places_of_points(x, y, n);
    assert(pairs(x, y).take(n) =~= pairs(x, y));
    assert(drawn_at(points(x, y), x, y, 0, n, places));
}

proof fn lemma_places_of_points(x: Seq<usize>, y: Seq<Value>, n: int) -> (places: Seq<int>)
    requires
        0 <= n <= x.len(),
        n <= y.len(),
    ensures
        drawn_at(pairs(x, y).take(n).filter(drawable()), x, y, 0, n, places),
    decreases n,
{
    reveal(Seq::filter);
    if n == 0 {
        Seq::empty()
    } else {
        let before = lemma_places_of_points(x, y, n - 1);
        let all = pairs(x, y).take(n);
        assert(all.drop_last() =~= pairs(x, y).take(n - 1));
        assert(all.last() == (x[n - 1], y[n - 1]));
        if y[n - 1].nan() {
            before
        } else {
            let places = before.push(n - 1);
            assert forall|k: int| 0 <= k < n && !(#[trigger] y[k]).nan() implies places.contains(
                k,
            ) by {
                if k == n - 1 {
                    assert(places[before.len() as int] == k);
                } else {
                    assert(before.contains(k));
                    let j = choose|j: int| 0 <= j < before.len() && before[j] == k;
                    assert(places[j] == k);
                }
            }
            places
        }
    }
}

/// The points of parts of two lists of the same length are those from the part's start to its
/// end.
proof fn lemma_part_draws(x: Seq<usize>, y: Seq<Value>, from: int, to: int)
    requires
        x.len() == y.len(),
        0 <= from <= to <= x.len(),
    ensures
        draws(points(x.subrange(from, to), y.subrange(from, to)), x, y, from, to),
{
    let xs = x.subrange(from, to);
    let ys = y.subrange(from, to);
    let drawn = points(xs, ys);
    law_points_draw_both_lists(xs, ys);
    let places = choose|places: Seq<int>| #[trigger]
        drawn_at(drawn, xs, ys, 0, to - from, places);
    let moved = places.map_values(|k: int| from + k);
    assert forall|k: int| from <= k < to && !(#[trigger] y[k]).nan() implies moved.contains(k) by {
        assert(!ys[k - from].nan());
        assert(places.contains(k - from));
        let j = choose|j: int| 0 <= j < places.len() && places[j] == k - from;
        assert(moved[j] == k);
    }
    assert forall|i: int, j: int| 0 <= i < j < moved.len() implies #[trigger] moved[i]
        < #[trigger] moved[j] by {
        assert(places[i] < places[j]);
    }
    assert forall|j: int| 0 <= j < moved.len() implies from <= #[trigger] moved[j] < to
        && !y[moved[j]].nan() && drawn[j] == (x[moved[j]], y[moved[j]]) by {
        assert(0 <= places[j] < to - from);
    }
    assert(drawn_at(drawn, x, y, from, to, moved));
}

/// Whether an element is a line with the given legend entry and colour that draws the coordinates
/// from one place up to another.
pub open spec fn is_line(
    element: ElementModel,
    label: Option<Seq<char>>,
    color: LineColor,
    x: Seq<usize>,
    y: Seq<Value>,
    from: int,
    to: int,
) -> bool {
    &&& element is Line
    &&& element->label == label
    &&& element->Line_color == color
    &&& draws(element->points, x, y, from, to)
}

/// The points of such a line contain those of every number, and it has no other points.
pub proof fn law_line_elements_draw_every_number(
    element: ElementModel,
    label: Option<Seq<char>>,
    color: LineColor,
    x: Seq<usize>,
    y: Seq<Value>,
    from: int,
    to: int,
)
    requires
        is_line(element, label, color, x, y, from, to),
    ensures
        element is Line,
        element->label == label,
        element->Line_color == color,
        forall|k: int|
            from <= k < to && !(#[trigger] y[k]).nan() ==> element->points.contains((x[k], y[k])),
        forall|j: int| 0 <= j < element->points.len() ==> !(#[trigger] element->points[j]).1.nan(),
        forall|j: int|
            0 <= j < element->points.len() ==> #[trigger] is_from(
                element->points,
                j,
                x,
                y,
                from,
                to,
            ),
{
    law_lines_draw_every_number(element->points, x, y, from, to);
}

// The chart of the single valued histories.

/// The caption, legend and axes of the chart of the single valued histories. Its y axis is
/// logarithmic, whatever the notation of labels is.
pub proof fn law_single_dimensioned_chart_axes(
    h: Histories,
    distances: Seq<Value>,
    scientific_notation: bool,
)
    ensures
        ({
            let chart = h.single_dimensioned_chart(distances, scientific_notation);
            &&& chart.caption == "f - min(f), abs(f), Sigma, Axis Ratio"@
            &&& chart.legend == Some(LegendPosition::LowerLeft)
            &&& chart.log_y
            &&& chart.y_labels == LabelFormat::PowerOfTen
            &&& chart.x_start == h.function_evals.first()
            &&& chart.x_end == h.function_evals.last()
            &&& chart.x_width == h.function_evals.last() - h.function_evals.first()
        }),
{
}

/// The distance line is drawn in two parts. The left part draws the distances before the minimum,
/// and that of the minimum too where it is reached more than once; the right part draws all
/// distances after the minimum.
pub proof fn law_single_dimensioned_chart_draws_distances(
    h: Histories,
    distances: Seq<Value>,
    scientific_notation: bool,
)
    requires
        h.aligned(),
        h.num_points() > 0,
        distances.len() == h.num_points(),
    ensures
        ({
            let elements = h.single_dimensioned_chart(distances, scientific_notation).elements;
            let best = h.best_function_value;
            let place = minimum_place(best);
            let left_end = if occurrences(best, best[place]) > 1 {
                place + 1
            } else {
                place
            };
            let n = distances.len() as int;
            &&& elements.len() > 1
            &&& is_line(
                elements[0],
                Some("f - min(f)"@),
                LineColor::Cyan,
                h.function_evals,
                distances,
                0,
                left_end,
            )
            &&& is_line(
                elements[1],
                None,
                LineColor::Cyan,
                h.function_evals,
                distances,
                place + 1,
                n,
            )
        }),
{
    let best = h.best_function_value;
    let place = minimum_place(best);
    let n = distances.len() as int;
    let left_end = h.num_left();
    law_place_of_the_minimum(best);
    lemma_part_draws(h.function_evals, distances, 0, left_end);
    lemma_part_draws(h.function_evals, distances, place + 1, n);
    assert(h.function_evals.take(left_end) =~= h.function_evals.subrange(0, left_end));
    assert(distances.take(left_end) =~= distances.subrange(0, left_end));
    assert(h.function_evals.skip(place + 1) =~= h.function_evals.subrange(place + 1, n));
    assert(distances.skip(place + 1) =~= distances.subrange(place + 1, n));
}

/// The line of absolute values draws every best function value that is a number, in recording
/// order, with the sign bit of its pattern cleared.
pub proof fn law_single_dimensioned_chart_draws_absolute_values(
    h: Histories,
    distances: Seq<Value>,
    scientific_notation: bool,
    absolute: Seq<Value>,
)
    requires
        h.aligned(),
        h.num_points() > 0,
        distances.len() == h.num_points(),
        absolute.len() == h.best_function_value.len(),
        forall|k: int|
            0 <= k < absolute.len() ==> (#[trigger] absolute[k]).bits
                == h.best_function_value[k].bits & 0x7fff_ffff_ffff_ffff,
    ensures
        h.single_dimensioned_chart(distances, scientific_notation).elements.len() > 2,
        is_line(
            h.single_dimensioned_chart(distances, scientific_notation).elements[2],
            Some("abs(f)"@),
            LineColor::Blue,
            h.function_evals,
            absolute,
            0,
            absolute.len() as int,
        ),
        forall|k: int|
            0 <= k < absolute.len() ==> ((#[trigger] absolute[k]).nan()
                <==> h.best_function_value[k].nan()),
{
    assert forall|k: int| 0 <= k < absolute.len() implies #[trigger] absolute[k]
        == absolute_values(h.best_function_value)[k] && (absolute[k].nan()
        <==> h.best_function_value[k].nan()) by {
        law_sign_bit(h.best_function_value[k]);
    }
    assert(absolute =~= absolute_values(h.best_function_value));
    law_points_draw_both_lists(h.function_evals, absolute);
}

/// The overall best function value is marked by a red cross of size 10 at its absolute value,
/// after the lines of distances and absolute values, where it is a number; else there is no
/// cross. The lines of sigma and of the axis ratio come last and draw all their numbers.
pub proof fn law_single_dimensioned_chart_draws_cross_and_scales(
    h: Histories,
    distances: Seq<Value>,
    scientific_notation: bool,
)
    requires
        h.aligned(),
        h.num_points() > 0,
        distances.len() == h.num_points(),
    ensures
        ({
            let elements = h.single_dimensioned_chart(distances, scientific_notation).elements;
            let place = minimum_place(h.best_function_value);
            let best = h.best_function_value[place];
            let n = h.num_points() as int;
            let first_scale = if best.nan() {
                3int
            } else {
                4int
            };
            &&& elements.len() == first_scale + 2
            &&& !best.nan() ==> {
                &&& elements[3] is Cross
                &&& elements[3]->x == h.function_evals[place]
                &&& elements[3]->y == best.absolute()
                &&& elements[3]->size == 10
                &&& elements[3]->Cross_color == LineColor::Red
            }
            &&& is_line(
                elements[first_scale],
                Some("Sigma"@),
                LineColor::Green,
                h.function_evals,
                h.sigma,
                0,
                n,
            )
            &&& is_line(
                elements[first_scale + 1],
                Some("Axis Ratio"@),
                LineColor::Red,
                h.function_evals,
                h.axis_ratio,
                0,
                n,
            )
        }),
{
    law_place_of_the_minimum(h.best_function_value);
    law_points_draw_both_lists(h.function_evals, h.sigma);
    law_points_draw_both_lists(h.function_evals, h.axis_ratio);
}

/// Whether a value counts for the range of the chart of the single valued histories: it is a
/// number and is a distance, but not that of a minimum that is reached only once, or an absolute
/// best function value, a sigma or an axis ratio.
pub open spec fn counts(h: Histories, distances: Seq<Value>, value: Value) -> bool {
    let best = h.best_function_value;
    let place = minimum_place(best);
    &&& !value.nan()
    &&& {
        ||| exists|k: int|
            0 <= k < distances.len() && #[trigger] distances[k] == value && (k != place
                || occurrences(best, best[place]) > 1)
        ||| exists|k: int| 0 <= k < best.len() && (#[trigger] best[k]).absolute() == value
        ||| exists|k: int| 0 <= k < h.sigma.len() && #[trigger] h.sigma[k] == value
        ||| exists|k: int| 0 <= k < h.axis_ratio.len() && #[trigger] h.axis_ratio[k] == value
    }
}

proof fn lemma_counting_values(h: Histories, distances: Seq<Value>, value: Value)
    requires
        h.aligned(),
        h.num_points() > 0,
        distances.len() == h.num_points(),
        !value.nan(),
    ensures
        h.single_dimensioned_values(distances).contains(value) <==> counts(h, distances, value),
{
    let best = h.best_function_value;
    let place = minimum_place(best);
    let count = occurrences(best, best[place]);
    let ranged = ranged_distances(distances, place, count);
    let absolute = absolute_values(best);
    let values = h.single_dimensioned_values(distances);
    if counts(h, distances, value) {
        if exists|k: int|
            0 <= k < distances.len() && #[trigger] distances[k] == value && (k != place || count
                > 1) {
            let k = choose|k: int|
                0 <= k < distances.len() && #[trigger] distances[k] == value && (k != place
                    || count > 1);
            lemma_distance_counts(distances, place, count, k);
        } else if exists|k: int| 0 <= k < best.len() && (#[trigger] best[k]).absolute() == value {
            let k = choose|k: int| 0 <= k < best.len() && (#[trigger] best[k]).absolute() == value;
            assert(absolute[k] == value);
        }
        lemma_part_of_sum(ranged, absolute, h.sigma, h.axis_ratio, value);
    }
    if values.contains(value) {
        let m = choose|m: int| 0 <= m < values.len() && values[m] == value;
        let a = ranged.len() as int;
        let b = a + absolute.len();
        let c = b + h.sigma.len();
        if m < a {
            let all = numbered(distances);
            let pred = counts_for_range(place, count);
            let kept = all.filter(pred);
            assert(ranged[m] == kept[m].1);
            let entry = kept[m];
            assert(kept.contains(entry));
            all.lemma_filter_contains_rev(pred, entry);
            all.lemma_filter_pred(pred, m);
            let k = choose|k: int| 0 <= k < all.len() && all[k] == entry;
            assert(distances[k] == value);
        } else if m < b {
            assert(best[m - a].absolute() == value);
        } else if m < c {
            assert(h.sigma[m - b] == value);
        } else {
            assert(h.axis_ratio[m - c] == value);
        }
    }
}

/// The range of the chart of the single valued histories encompasses every value that counts for
/// it, and each of its ends is such a value where there is one.
pub proof fn law_single_dimensioned_chart_range(
    h: Histories,
    distances: Seq<Value>,
    scientific_notation: bool,
    value: Value,
)
    requires
        h.aligned(),
        h.num_points() > 0,
        distances.len() == h.num_points(),
        counts(h, distances, value),
    ensures
        ({
            let range = h.single_dimensioned_chart(distances, scientific_notation).y_range;
            &&& range.low.le(value)
            &&& value.le(range.high)
            &&& counts(h, distances, range.low)
            &&& counts(h, distances, range.high)
        }),
{
    let values = h.single_dimensioned_values(distances);
    let range = range_of(values);
    lemma_counting_values(h, distances, value);
    let m = choose|m: int| 0 <= m < values.len() && values[m] == value;
    assert(!values[m].nan());
    law_range_of_values(values);
    let low = choose|i: int|
        #![trigger values[i]]
        0 <= i < values.len() && values[i] == range.low && !values[i].nan() && forall|j: int|
            0 <= j < i ==> !(#[trigger] values[j]).le(values[i]);
    let high = choose|i: int|
        #![trigger values[i]]
        0 <= i < values.len() && values[i] == range.high && !values[i].nan() && forall|j: int|
            i < j < values.len() ==> !values[i].le(#[trigger] values[j]);
    assert(values.contains(range.low));
    assert(values.contains(range.high));
    lemma_counting_values(h, distances, range.low);
    lemma_counting_values(h, distances, range.high);
}

// The charts with one line for each dimension.

/// Whether a chart has one line for each row: line `i` has the `i`th label and the colour that
/// the palette has at `i`, counted round, and draws every number of row `i`.
pub open spec fn shows_rows(
    elements: Seq<ElementModel>,
    labels: Seq<Option<Seq<char>>>,
    evals: Seq<usize>,
    rows: Seq<Seq<Value>>,
) -> bool {
    &&& elements.len() == rows.len()
    &&& forall|i: int|
        0 <= i < rows.len() ==> is_line(
            #[trigger] elements[i],
            labels[i],
            LineColor::Rgb(
                palette99()[i % 21].0,
                palette99()[i % 21].1,
                palette99()[i % 21].2,
            ),
            evals,
            rows[i],
            0,
            evals.len() as int,
        )
}

/// Each line of a chart that shows rows draws every number of its own row.
pub proof fn law_shown_rows_are_drawn(
    elements: Seq<ElementModel>,
    labels: Seq<Option<Seq<char>>>,
    evals: Seq<usize>,
    rows: Seq<Seq<Value>>,
    i: int,
    k: int,
)
    requires
        shows_rows(elements, labels, evals, rows),
        0 <= i < rows.len(),
        0 <= k < evals.len(),
        !rows[i][k].nan(),
    ensures
        elements.len() == rows.len(),
        elements[i] is Line,
        elements[i]->label == labels[i],
        elements[i]->points.contains((evals[k], rows[i][k])),
{
    law_lines_draw_every_number(elements[i]->points, evals, rows[i], 0, evals.len() as int);
}

proof fn lemma_row_line_draws(evals: Seq<usize>, row: Seq<Value>, label: RowLabel, i: nat)
    requires
        evals.len() == row.len(),
    ensures
        is_line(
            row_line(evals, row, label, i),
            row_label(label, i),
            LineColor::Rgb(
                palette99()[i as int % 21].0,
                palette99()[i as int % 21].1,
                palette99()[i as int % 21].2,
            ),
            evals,
            row,
            0,
            evals.len() as int,
        ),
{
    law_points_draw_both_lists(evals, row);
    assert(palette99().len() == 21);
}

/// The chart of the mean: one line for each dimension, labelled with the dimension as an index of
/// `x`, on a linear axis whose labels follow the notation of the options.
pub proof fn law_mean_chart_shows_each_dimension(h: Histories, scientific_notation: bool)
    requires
        h.aligned(),
    ensures
        ({
            let chart = h.mean_chart(scientific_notation);
            &&& chart.caption == "Mean"@
            &&& chart.legend == Some(LegendPosition::LowerRight)
            &&& !chart.log_y
            &&& chart.y_labels == LabelFormat::Scientific <==> scientific_notation
            &&& chart.y_labels == LabelFormat::Plain <==> !scientific_notation
            &&& chart.x_start == h.function_evals.first()
            &&& chart.x_end == h.function_evals.last()
            &&& chart.x_width == h.function_evals.last() - h.function_evals.first()
            &&& shows_rows(
                chart.elements,
                Seq::new(h.mean_dimensions.len(), |i: int| Some(mean_label(i as nat))),
                h.function_evals,
                h.mean_dimensions,
            )
        }),
{
    assert forall|i: int| 0 <= i < h.mean_dimensions.len() implies is_line(
        #[trigger] h.mean_chart(scientific_notation).elements[i],
        Some(mean_label(i as nat)),
        LineColor::Rgb(palette99()[i % 21].0, palette99()[i % 21].1, palette99()[i % 21].2),
        h.function_evals,
        h.mean_dimensions[i],
        0,
        h.function_evals.len() as int,
    ) by {
        lemma_row_line_draws(h.function_evals, h.mean_dimensions[i], RowLabel::Mean, i as nat);
    }
}

/// The chart of the distribution axis scales: one line without a legend entry for each axis, on a
/// logarithmic axis.
pub proof fn law_sqrt_eigenvalues_chart_shows_each_axis(h: Histories, scientific_notation: bool)
    requires
        h.aligned(),
    ensures
        ({
            let chart = h.sqrt_eigenvalues_chart(scientific_notation);
            &&& chart.caption == "Distribution Axis Scales"@
            &&& chart.legend is None
            &&& chart.log_y
            &&& chart.y_labels == LabelFormat::PowerOfTen
            &&& chart.x_start == h.function_evals.first()
            &&& chart.x_end == h.function_evals.last()
            &&& chart.x_width == h.function_evals.last() - h.function_evals.first()
            &&& shows_rows(
                chart.elements,
                Seq::new(h.sqrt_eigenvalues.len(), |i: int| None),
                h.function_evals,
                h.sqrt_eigenvalues,
            )
        }),
{
    assert forall|i: int| 0 <= i < h.sqrt_eigenvalues.len() implies is_line(
        #[trigger] h.sqrt_eigenvalues_chart(scientific_notation).elements[i],
        None,
        LineColor::Rgb(palette99()[i % 21].0, palette99()[i % 21].1, palette99()[i % 21].2),
        h.function_evals,
        h.sqrt_eigenvalues[i],
        0,
        h.function_evals.len() as int,
    ) by {
        lemma_row_line_draws(h.function_evals, h.sqrt_eigenvalues[i], RowLabel::Absent, i as nat);
    }
}

/// The chart of the standard deviations: one line for each coordinate, labelled with its number,
/// on a logarithmic axis.
pub proof fn law_coord_axis_scales_chart_shows_each_coordinate(
    h: Histories,
    scientific_notation: bool,
)
    requires
        h.aligned(),
    ensures
        ({
            let chart = h.coord_axis_scales_chart(scientific_notation);
            &&& chart.caption == "Coord. Axis Standard Deviations (without sigma)"@
            &&& chart.legend == Some(LegendPosition::LowerLeft)
            &&& chart.log_y
            &&& chart.y_labels == LabelFormat::PowerOfTen
            &&& chart.x_start == h.function_evals.first()
            &&& chart.x_end == h.function_evals.last()
            &&& chart.x_width == h.function_evals.last() - h.function_evals.first()
            &&& shows_rows(
                chart.elements,
                Seq::new(h.coord_axis_scales.len(), |i: int| Some(decimal(i as nat))),
                h.function_evals,
                h.coord_axis_scales,
            )
        }),
{
    assert forall|i: int| 0 <= i < h.coord_axis_scales.len() implies is_line(
        #[trigger] h.coord_axis_scales_chart(scientific_notation).elements[i],
        Some(decimal(i as nat)),
        LineColor::Rgb(palette99()[i % 21].0, palette99()[i % 21].1, palette99()[i % 21].2),
        h.function_evals,
        h.coord_axis_scales[i],
        0,
        h.function_evals.len() as int,
    ) by {
        lemma_row_line_draws(h.function_evals, h.coord_axis_scales[i], RowLabel::Number, i as nat);
    }
}

/// A value of the list of all entries is the entry of some row.
proof fn lemma_entry_of_some_row(rows: Seq<Seq<Value>>, value: Value)
    requires
        rows.flatten().contains(value),
    ensures
        exists|i: int, k: int|
            #![trigger rows[i][k]]
            0 <= i < rows.len() && 0 <= k < rows[i].len() && rows[i][k] == value,
    decreases rows.len(),
{
    if rows.len() > 0 {
        let rest = rows.drop_first();
        assert(rows.flatten() == rows.first() + rest.flatten());
        let m = choose|m: int| 0 <= m < rows.flatten().len() && rows.flatten()[m] == value;
        if m < rows.first().len() {
            assert(rows[0][m] == value);
        } else {
            assert(rest.flatten()[m - rows.first().len()] == value);
            lemma_entry_of_some_row(rest, value);
            let (i, k) = choose|i: int, k: int|
                #![trigger rest[i][k]]
                0 <= i < rest.len() && 0 <= k < rest[i].len() && rest[i][k] == value;
            assert(rows[i + 1][k] == value);
        }
    }
}

/// Whether a range encompasses every number of the rows, and each of its ends is a number of
/// some row.
pub open spec fn fits_rows(chart: ChartModel, rows: Seq<Seq<Value>>) -> bool {
    let range = chart.y_range;
    &&& forall|i: int, k: int|
        0 <= i < rows.len() && 0 <= k < rows[i].len() && !(#[trigger] rows[i][k]).nan()
            ==> range.low.le(rows[i][k]) && rows[i][k].le(range.high)
    &&& !range.low.nan()
    &&& !range.high.nan()
    &&& exists|i: int, k: int|
        0 <= i < rows.len() && 0 <= k < rows[i].len() && #[trigger] rows[i][k] == range.low
    &&& exists|i: int, k: int|
        0 <= i < rows.len() && 0 <= k < rows[i].len() && #[trigger] rows[i][k] == range.high
}

proof fn lemma_range_fits_rows(chart: ChartModel, rows: Seq<Seq<Value>>, i: int, k: int)
    requires
        chart.y_range == range_of(rows.flatten()),
        0 <= i < rows.len(),
        0 <= k < rows[i].len(),
        !rows[i][k].nan(),
    ensures
        fits_rows(chart, rows),
{
    let values = rows.flatten();
    let range = chart.y_range;
    lemma_row_entry_occurs(rows, i, k);
    let m = choose|m: int| 0 <= m < values.len() && values[m] == rows[i][k];
    assert(!values[m].nan());
    law_range_of_values(values);
    assert forall|i: int, k: int|
        0 <= i < rows.len() && 0 <= k < rows[i].len() && !(#[trigger] rows[i][k]).nan() implies
        range.low.le(rows[i][k]) && rows[i][k].le(range.high) by {
        lemma_row_entry_occurs(rows, i, k);
        let m = choose|m: int| 0 <= m < values.len() && values[m] == rows[i][k];
        assert(!values[m].nan());
    }
    assert(values.contains(range.low));
    assert(values.contains(range.high));
    lemma_entry_of_some_row(rows, range.low);
    lemma_entry_of_some_row(rows, range.high);
}

/// The range of the chart of the mean is that of the mean.
pub proof fn law_mean_chart_range(h: Histories, scientific_notation: bool, i: int, k: int)
    requires
        0 <= i < h.mean_dimensions.len(),
        0 <= k < h.mean_dimensions[i].len(),
        !h.mean_dimensions[i][k].nan(),
    ensures
        fits_rows(h.mean_chart(scientific_notation), h.mean_dimensions),
{
    lemma_range_fits_rows(h.mean_chart(scientific_notation), h.mean_dimensions, i, k);
}

/// The range of the chart of the axis scales is that of the axis scales.
pub proof fn law_sqrt_eigenvalues_chart_range(
    h: Histories,
    scientific_notation: bool,
    i: int,
    k: int,
)
    requires
        0 <= i < h.sqrt_eigenvalues.len(),
        0 <= k < h.sqrt_eigenvalues[i].len(),
        !h.sqrt_eigenvalues[i][k].nan(),
    ensures
        fits_rows(h.sqrt_eigenvalues_chart(scientific_notation), h.sqrt_eigenvalues),
{
    lemma_range_fits_rows(h.sqrt_eigenvalues_chart(scientific_notation), h.sqrt_eigenvalues, i, k);
}

/// The range of the chart of the standard deviations is that of the standard deviations.
pub proof fn law_coord_axis_scales_chart_range(
    h: Histories,
    scientific_notation: bool,
    i: int,
    k: int,
)
    requires
        0 <= i < h.coord_axis_scales.len(),
        0 <= k < h.coord_axis_scales[i].len(),
        !h.coord_axis_scales[i][k].nan(),
    ensures
        fits_rows(h.coord_axis_scales_chart(scientific_notation), h.coord_axis_scales),
{
    lemma_range_fits_rows(
        h.coord_axis_scales_chart(scientific_notation),
        h.coord_axis_scales,
        i,
        k,
    );
}

/// Whether no entry of the rows is a number.
pub open spec fn without_numbers(rows: Seq<Seq<Value>>) -> bool {
    forall|i: int, k: int|
        0 <= i < rows.len() && 0 <= k < rows[i].len() ==> (#[trigger] rows[i][k]).nan()
}

proof fn lemma_range_without_numbers(rows: Seq<Seq<Value>>)
    requires
        rows.len() > 0,
        rows[0].len() > 0,
        without_numbers(rows),
    ensures
        range_of(rows.flatten()).low.nan(),
        range_of(rows.flatten()).high.nan(),
{
    let values = rows.flatten();
    lemma_row_entry_occurs(rows, 0, 0);
    assert forall|m: int| 0 <= m < values.len() implies (#[trigger] values[m]).nan() by {
        assert(values.contains(values[m]));
        lemma_entry_of_some_row(rows, values[m]);
    }
    law_range_of_values(values);
}

/// The range of a chart of rows without any number is not made of numbers either.
pub proof fn law_dimension_charts_without_numbers(h: Histories, scientific_notation: bool)
    requires
        h.aligned(),
        h.num_points() > 0,
        h.dimensions() > 0,
    ensures
        without_numbers(h.mean_dimensions) ==> {
            &&& h.mean_chart(scientific_notation).y_range.low.nan()
            &&& h.mean_chart(scientific_notation).y_range.high.nan()
        },
        without_numbers(h.sqrt_eigenvalues) ==> {
            &&& h.sqrt_eigenvalues_chart(scientific_notation).y_range.low.nan()
            &&& h.sqrt_eigenvalues_chart(scientific_notation).y_range.high.nan()
        },
        without_numbers(h.coord_axis_scales) ==> {
            &&& h.coord_axis_scales_chart(scientific_notation).y_range.low.nan()
            &&& h.coord_axis_scales_chart(scientific_notation).y_range.high.nan()
        },
{
    if without_numbers(h.mean_dimensions) {
        lemma_range_without_numbers(h.mean_dimensions);
    }
    if without_numbers(h.sqrt_eigenvalues) {
        lemma_range_without_numbers(h.sqrt_eigenvalues);
    }
    if without_numbers(h.coord_axis_scales) {
        lemma_range_without_numbers(h.coord_axis_scales);
    }
}

/// The range of the chart of the single valued histories is not made of numbers where no value
/// counts for it.
pub proof fn law_single_dimensioned_chart_without_numbers(
    h: Histories,
    distances: Seq<Value>,
    scientific_notation: bool,
)
    requires
        h.aligned(),
        h.num_points() > 0,
        distances.len() == h.num_points(),
        forall|value: Value| !#[trigger] counts(h, distances, value),
    ensures
        h.single_dimensioned_chart(distances, scientific_notation).y_range.low.nan(),
        h.single_dimensioned_chart(distances, scientific_notation).y_range.high.nan(),
{
    let values = h.single_dimensioned_values(distances);
    assert forall|m: int| 0 <= m < values.len() implies (#[trigger] values[m]).nan() by {
        assert(values.contains(values[m]));
        if !values[m].nan() {
            lemma_counting_values(h, distances, values[m]);
        }
    }
    law_range_of_values(values);
}

// The page.

/// Each chart of a page is the one that the plot has of its own, laid out by the plot's options:
/// the labels of the mean follow the notation of the options, and those of the other charts are
/// powers of ten.
pub proof fn law_page_has_the_charts_of_the_plot(plot: PlotModel, distances: Seq<Value>)
    ensures
        ({
            let page = plot.page(distances);
            let notation = plot.options.scientific_notation;
            &&& page.top_left == plot.histories.single_dimensioned_chart(distances, notation)
            &&& page.top_right == plot.histories.mean_chart(notation)
            &&& page.bottom_left == plot.histories.sqrt_eigenvalues_chart(notation)
            &&& page.bottom_right == plot.histories.coord_axis_scales_chart(notation)
            &&& page.top_right.y_labels == LabelFormat::Scientific <==> notation
            &&& page.top_right.y_labels == LabelFormat::Plain <==> !notation
            &&& page.top_left.y_labels == LabelFormat::PowerOfTen
            &&& page.bottom_left.y_labels == LabelFormat::PowerOfTen
            &&& page.bottom_right.y_labels == LabelFormat::PowerOfTen
            &&& page.top_left.caption == "f - min(f), abs(f), Sigma, Axis Ratio"@
            &&& page.top_right.caption == "Mean"@
            &&& page.bottom_left.caption == "Distribution Axis Scales"@
            &&& page.bottom_right.caption == "Coord. Axis Standard Deviations (without sigma)"@
        }),
{
}

// Models.

/// The model of a chart has what the chart has, and the elements in their order.
pub proof fn law_chart_model_is_the_chart(chart: Chart)
    ensures
        chart@.caption == chart.caption@,
        chart@.legend == chart.legend,
        chart@.log_y == chart.log_y,
        chart@.y_labels == chart.y_labels,
        chart@.x_start == chart.x_start,
        chart@.x_end == chart.x_end,
        chart@.x_width == chart.x_width,
        chart@.y_range == chart.y_range,
        chart@.elements.len() == chart.elements@.len(),
        forall|i: int|
            0 <= i < chart.elements@.len() ==> #[trigger] chart@.elements[i]
                == chart.elements@[i]@,
{
}

/// The model of an element has what the element has.
pub proof fn law_element_model_is_the_element(element: Element)
    ensures
        match element {
            Element::Line { label, color, points } => {
                &&& element@ is Line
                &&& element@->Line_color == color
                &&& element@->points == points@
                &&& label is None ==> element@->label is None
                &&& label matches Some(text) ==> element@->label == Some(text@)
            },
            Element::Cross { x, y, size, color } => {
                &&& element@ is Cross
                &&& element@->x == x
                &&& element@->y == y
                &&& element@->size == size
                &&& element@->Cross_color == color
            },
        },
{
}

/// The model of a page has the models of its charts, each in its place.
pub proof fn law_page_model_is_the_page(page: Page)
    ensures
        page@.top_left == page.top_left@,
        page@.top_right == page.top_right@,
        page@.bottom_left == page.bottom_left@,
        page@.bottom_right == page.bottom_right@,
{
}

// What a plot is drawn from.

/// A plot can be drawn just where it has a data point and its last data point is not before its
/// first one. Its overall best function value is the one at the place of the minimum.
pub proof fn law_drawable_histories(h: Histories)
    ensures
        h.drawable() <==> h.function_evals.len() > 0 && h.function_evals[0]
            <= h.function_evals[h.function_evals.len() - 1],
        h.min_value() == h.best_function_value[minimum_place(h.best_function_value)],
{
}

// Labels.

/// The number that a text of decimal digits stands for.
pub open spec fn read_decimal(text: Seq<char>) -> int
    decreases text.len(),
{
    if text.len() == 0 {
        0
    } else {
        10 * read_decimal(text.drop_last()) + (text.last() as int - '0' as int)
    }
}

/// A number in decimal notation consists of digits, does not begin with a zero unless it is zero,
/// and reads back as the number.
pub proof fn law_decimal_reads_back(n: nat)
    ensures
        read_decimal(decimal(n)) == n,
        decimal(n).len() > 0,
        n > 0 ==> decimal(n)[0] != '0',
        n == 0 ==> decimal(n) == seq!['0'],
        forall|i: int| 0 <= i < decimal(n).len() ==> '0' <= #[trigger] decimal(n)[i] <= '9',
    decreases n,
{
    let text = decimal(n);
    if n < 10 {
        assert(text.drop_last() =~= Seq::empty());
        assert(read_decimal(text.drop_last()) == 0);
        assert(digit(n as int) as int - '0' as int == n);
    } else {
        law_decimal_reads_back(n / 10);
        assert(text.drop_last() =~= decimal(n / 10));
        assert(digit((n % 10) as int) as int - '0' as int == n % 10);
        assert(text[0] == decimal(n / 10)[0]);
        assert forall|i: int| 0 <= i < text.len() implies '0' <= #[trigger] text[i] <= '9' by {
            if i < text.len() - 1 {
                assert(text[i] == decimal(n / 10)[i]);
            }
        }
    }
}

/// The label of the mean is the dimension in decimal notation between `x[` and `]`.
pub proof fn law_mean_label_brackets_the_dimension(dimension: nat)
    ensures
        ({
            let text = mean_label(dimension);
            let n = decimal(dimension).len() as int;
            &&& text.len() == n + 3
            &&& text[0] == 'x'
            &&& text[1] == '['
            &&& text.subrange(2, n + 2) == decimal(dimension)
            &&& text[n + 2] == ']'
        }),
{
    let text = mean_label(dimension);
    assert(text.subrange(2, decimal(dimension).len() as int + 2) =~= decimal(dimension));
}

} // verus!

//! What recording and clearing do to each history, entry by entry.
use crate::data::{DataPoint, Histories, PlotData};
use crate::order::ascending_order;
use crate::plot::{PlotModel, PlotOptions};
use crate::value::Value;
use crate::value_laws::{law_ascending_order_sorts_stably, sorts_stably};
use vstd::prelude::*;

verus! {

/// The histories of plot data are its fields, each entry in its place.
pub proof fn law_histories_are_the_fields(data: PlotData)
    ensures
        data@.function_evals == data.function_evals@,
        data@.best_function_value == data.best_function_value@,
        data@.sigma == data.sigma@,
        data@.axis_ratio == data.axis_ratio@,
        data@.mean_dimensions.len() == data.mean_dimensions.len(),
        data@.sqrt_eigenvalues.len() == data.sqrt_eigenvalues.len(),
        data@.coord_axis_scales.len() == data.coord_axis_scales.len(),
        forall|i: int|
            0 <= i < data.mean_dimensions.len() ==> #[trigger] data@.mean_dimensions[i]
                == data.mean_dimensions@[i]@,
        forall|i: int|
            0 <= i < data.sqrt_eigenvalues.len() ==> #[trigger] data@.sqrt_eigenvalues[i]
                == data.sqrt_eigenvalues@[i]@,
        forall|i: int|
            0 <= i < data.coord_axis_scales.len() ==> #[trigger] data@.coord_axis_scales[i]
                == data.coord_axis_scales@[i]@,
{
}

/// Histories are aligned just where each has one entry for each data point and each kind of row
/// occurs once for each dimension.
pub proof fn law_aligned_histories(histories: Histories)
    ensures
        histories.num_points() == histories.function_evals.len(),
        histories.dimensions() == histories.mean_dimensions.len(),
        histories.aligned() <==> {
            let n = histories.function_evals.len();
            let dimensions = histories.mean_dimensions.len();
            &&& histories.best_function_value.len() == n
            &&& histories.sigma.len() == n
            &&& histories.axis_ratio.len() == n
            &&& histories.sqrt_eigenvalues.len() == dimensions
            &&& histories.coord_axis_scales.len() == dimensions
            &&& forall|i: int|
                0 <= i < dimensions ==> (#[trigger] histories.mean_dimensions[i]).len() == n
            &&& forall|i: int|
                0 <= i < dimensions ==> (#[trigger] histories.sqrt_eigenvalues[i]).len() == n
            &&& forall|i: int|
                0 <= i < dimensions ==> (#[trigger] histories.coord_axis_scales[i]).len() == n
        },
{
}

/// A data point has the given number of dimensions just where each of its lists has as many
/// entries.
pub proof fn law_dimensions_of_a_point(point: DataPoint, dimensions: nat)
    ensures
        point.has_dimensions(dimensions) <==> point.mean@.len() == dimensions
            && point.sqrt_eigenvalues@.len() == dimensions && point.coord_axis_scales@.len()
            == dimensions,
{
}

/// A new plot has recorded nothing, has a row for each dimension, and is due at its gap.
pub proof fn law_new_plot_has_recorded_nothing(dimensions: nat, options: PlotOptions)
    ensures
        ({
            let plot = PlotModel::empty(dimensions, options);
            let h = plot.histories;
            &&& plot.options == options
            &&& plot.last_data_point_evals == 0
            &&& plot.next_data_point_evals() == options.min_gap_evals
            &&& h.function_evals.len() == 0
            &&& h.best_function_value.len() == 0
            &&& h.sigma.len() == 0
            &&& h.axis_ratio.len() == 0
            &&& h.mean_dimensions.len() == dimensions
            &&& h.sqrt_eigenvalues.len() == dimensions
            &&& h.coord_axis_scales.len() == dimensions
            &&& forall|i: int|
                0 <= i < dimensions ==> (#[trigger] h.mean_dimensions[i]).len() == 0
            &&& forall|i: int|
                0 <= i < dimensions ==> (#[trigger] h.sqrt_eigenvalues[i]).len() == 0
            &&& forall|i: int|
                0 <= i < dimensions ==> (#[trigger] h.coord_axis_scales[i]).len() == 0
        }),
{
}

/// Recording appends one entry to each of the histories that have a single value: the number of
/// evaluations as it is, and the others with their offsets applied. A missing best function value
/// is recorded as one that is not a number.
pub proof fn law_recording_appends_single_values(h: Histories, point: DataPoint)
    ensures
        h.with_point(point).function_evals == h.function_evals.push(point.function_evals),
        h.with_point(point).sigma == h.sigma.push(point.sigma.applied()),
        h.with_point(point).axis_ratio == h.axis_ratio.push(point.axis_ratio.applied()),
        h.with_point(point).best_function_value.len() == h.best_function_value.len() + 1,
        h.with_point(point).best_function_value.drop_last() == h.best_function_value,
        match point.best_function_value {
            Some(best) => h.with_point(point).best_function_value.last() == best.applied(),
            None => h.with_point(point).best_function_value.last().nan(),
        },
{
    assert(h.with_point(point).best_function_value.drop_last() =~= h.best_function_value);
}

/// Recording appends to the row of each dimension that dimension's own mean, as it is.
pub proof fn law_recording_appends_the_mean_of_each_dimension(
    h: Histories,
    point: DataPoint,
    dimension: int,
)
    requires
        h.aligned(),
        point.has_dimensions(h.dimensions()),
        0 <= dimension < h.dimensions(),
    ensures
        h.with_point(point).mean_dimensions.len() == h.mean_dimensions.len(),
        h.with_point(point).mean_dimensions[dimension] == h.mean_dimensions[dimension].push(
            point.mean@[dimension],
        ),
{
}

/// Recording appends to the row of each coordinate that coordinate's own standard deviation:
/// raised where it is at least zero, else lowered. They are not sorted.
pub proof fn law_recording_appends_the_scale_of_each_coordinate(
    h: Histories,
    point: DataPoint,
    coordinate: int,
)
    requires
        h.aligned(),
        point.has_dimensions(h.dimensions()),
        0 <= coordinate < h.dimensions(),
    ensures
        ({
            let scale = point.coord_axis_scales@[coordinate];
            let row = h.with_point(point).coord_axis_scales[coordinate];
            &&& h.with_point(point).coord_axis_scales.len() == h.coord_axis_scales.len()
            &&& row.len() == h.coord_axis_scales[coordinate].len() + 1
            &&& row.drop_last() == h.coord_axis_scales[coordinate]
            &&& (Value { bits: 0 }).le(scale.value) ==> row.last() == scale.raised
            &&& !(Value { bits: 0 }).le(scale.value) ==> row.last() == scale.lowered
        }),
{
    let row = h.with_point(point).coord_axis_scales[coordinate];
    assert(row.drop_last() =~= h.coord_axis_scales[coordinate]);
}

/// Recording appends one axis scale to each row, so that the scales ascend with the rows: the
/// new entries are the scales of the point with their offsets applied, each of them once, and
/// the scales stand in stable ascending order.
pub proof fn law_recording_appends_sorted_axis_scales(h: Histories, point: DataPoint)
    requires
        h.aligned(),
        point.has_dimensions(h.dimensions()),
    ensures
        h.with_point(point).sqrt_eigenvalues.len() == h.sqrt_eigenvalues.len(),
        forall|i: int|
            0 <= i < h.sqrt_eigenvalues.len() ==> (
            #[trigger] h.with_point(point).sqrt_eigenvalues[i]).len()
                == h.sqrt_eigenvalues[i].len() + 1
                && h.with_point(point).sqrt_eigenvalues[i].drop_last() == h.sqrt_eigenvalues[i],
        exists|scales: Seq<Value>, order: Seq<int>|
            {
                &&& #[trigger] sorts_stably(scales, order)
                &&& scales.len() == point.sqrt_eigenvalues@.len()
                &&& forall|i: int|
                    0 <= i < scales.len() ==> #[trigger] scales[i]
                        == point.sqrt_eigenvalues@[i].value
                &&& forall|i: int|
                    0 <= i < order.len() ==> h.with_point(point).sqrt_eigenvalues[i].last()
                        == point.sqrt_eigenvalues@[#[trigger] order[i]].applied()
            },
{
    let g = h.with_point(point);
    let scales = point.axis_scales();
    law_ascending_order_sorts_stably(scales);
    let order = ascending_order(scales);
    assert forall|i: int| 0 <= i < h.sqrt_eigenvalues.len() implies (
    #[trigger] g.sqrt_eigenvalues[i]).len() == h.sqrt_eigenvalues[i].len() + 1
        && g.sqrt_eigenvalues[i].drop_last() == h.sqrt_eigenvalues[i] by {
        assert(g.sqrt_eigenvalues[i].drop_last() =~= h.sqrt_eigenvalues[i]);
    }
    assert forall|i: int| 0 <= i < order.len() implies g.sqrt_eigenvalues[i].last()
        == point.sqrt_eigenvalues@[#[trigger] order[i]].applied() by {
        assert(point.recorded_axis_scales()[i] == point.sqrt_eigenvalues@[order[i]].applied());
    }
}

/// Recording in a plot records in its histories, remembers when, and keeps the options. A plot is
/// valid just where its histories are aligned.
pub proof fn law_recording_in_a_plot(plot: PlotModel, point: DataPoint)
    ensures
        plot.with_point(point).histories == plot.histories.with_point(point),
        plot.with_point(point).last_data_point_evals == point.function_evals,
        plot.with_point(point).options == plot.options,
        plot.valid() <==> plot.histories.aligned(),
        plot.next_data_point_evals() == plot.last_data_point_evals + plot.options.min_gap_evals,
{
}

/// Clearing leaves of every history, and of every row, its last entry alone.
pub proof fn law_clearing_leaves_the_last_entries(plot: PlotModel)
    ensures
        ({
            let old_ones = plot.histories;
            let new_ones = plot.cleared().histories;
            &&& new_ones.function_evals == seq![old_ones.function_evals.last()]
            &&& new_ones.best_function_value == seq![old_ones.best_function_value.last()]
            &&& new_ones.sigma == seq![old_ones.sigma.last()]
            &&& new_ones.axis_ratio == seq![old_ones.axis_ratio.last()]
            &&& new_ones.mean_dimensions.len() == old_ones.mean_dimensions.len()
            &&& new_ones.sqrt_eigenvalues.len() == old_ones.sqrt_eigenvalues.len()
            &&& new_ones.coord_axis_scales.len() == old_ones.coord_axis_scales.len()
            &&& forall|i: int|
                0 <= i < old_ones.mean_dimensions.len() ==> #[trigger] new_ones.mean_dimensions[i]
                    == seq![old_ones.mean_dimensions[i].last()]
            &&& forall|i: int|
                0 <= i < old_ones.sqrt_eigenvalues.len()
                    ==> #[trigger] new_ones.sqrt_eigenvalues[i]
                    == seq![old_ones.sqrt_eigenvalues[i].last()]
            &&& forall|i: int|
                0 <= i < old_ones.coord_axis_scales.len()
                    ==> #[trigger] new_ones.coord_axis_scales[i]
                    == seq![old_ones.coord_axis_scales[i].last()]
            &&& plot.cleared().options == plot.options
            &&& plot.cleared().last_data_point_evals == plot.last_data_point_evals
        }),
{
}

} // verus!

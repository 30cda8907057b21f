//! Recorded histories.
use crate::order::{ascending_order, places, sort_places};
use crate::value::{applied_offsets, apply_offsets, Offset, Value};
use vstd::prelude::*;

verus! {

/// What is recorded of the state of the algorithm at one time. Its lists have one entry for each
/// dimension of the problem.
#[derive(Clone, Debug)]
pub struct DataPoint {
    /// The number of function evaluations so far.
    pub function_evals: usize,
    /// The function value of the best individual of the current generation. There is none
    /// before the first evaluation.
    pub best_function_value: Option<Offset>,
    /// The step size.
    pub sigma: Offset,
    /// The largest ratio between any two distribution axis scales: the caller divides the largest
    /// of `sqrt_eigenvalues` by the smallest.
    pub axis_ratio: Offset,
    /// The mean of the distribution, by dimension.
    pub mean: Vec<Value>,
    /// The square roots of the eigenvalues of the covariance matrix, in any order.
    pub sqrt_eigenvalues: Vec<Offset>,
    /// The square roots of the diagonal of the covariance matrix, by dimension.
    pub coord_axis_scales: Vec<Offset>,
}

impl DataPoint {
    /// Whether the point comes from a state with the given number of dimensions.
    pub open spec fn has_dimensions(self, dimensions: nat) -> bool {
        &&& self.mean.len() == dimensions
        &&& self.sqrt_eigenvalues.len() == dimensions
        &&& self.coord_axis_scales.len() == dimensions
    }

    /// The best function value as it is recorded.
    pub open spec fn recorded_best(self) -> Value {
        match self.best_function_value {
            Some(best) => best.applied(),
            None => Value::not_a_number(),
        }
    }

    /// The axis scales before the offset is applied.
    pub open spec fn axis_scales(self) -> Seq<Value> {
        self.sqrt_eigenvalues@.map_values(|scale: Offset| scale.value)
    }

    /// The axis scales as they are recorded: in ascending order, with the offset applied.
    pub open spec fn recorded_axis_scales(self) -> Seq<Value> {
        ascending_order(self.axis_scales()).map_values(
            |place: int| self.sqrt_eigenvalues@[place].applied(),
        )
    }

    /// The coordinate axis scales as they are recorded.
    pub open spec fn recorded_coord_scales(self) -> Seq<Value> {
        applied_offsets(self.coord_axis_scales@)
    }
}

/// Recorded histories, oldest entry first. Those with one row for each dimension hold the
/// history of that dimension in each row.
#[verifier::ext_equal]
pub struct Histories {
    pub function_evals: Seq<usize>,
    pub best_function_value: Seq<Value>,
    pub sigma: Seq<Value>,
    pub axis_ratio: Seq<Value>,
    pub mean_dimensions: Seq<Seq<Value>>,
    pub sqrt_eigenvalues: Seq<Seq<Value>>,
    pub coord_axis_scales: Seq<Seq<Value>>,
}

/// `dimensions` empty rows.
pub open spec fn empty_rows(dimensions: nat) -> Seq<Seq<Value>> {
    Seq::new(dimensions, |i: int| Seq::empty())
}

/// Each row with one more entry.
pub open spec fn push_to_rows(rows: Seq<Seq<Value>>, entries: Seq<Value>) -> Seq<Seq<Value>> {
    Seq::new(rows.len(), |i: int| rows[i].push(entries[i]))
}

/// The last entry of a history alone.
pub open spec fn latest<T>(history: Seq<T>) -> Seq<T> {
    seq![history.last()]
}

/// The last entry of each row alone.
pub open spec fn latest_of_rows(rows: Seq<Seq<Value>>) -> Seq<Seq<Value>> {
    rows.map_values(|row: Seq<Value>| latest(row))
}

impl Histories {
    /// Histories of a plot that has recorded nothing.
    pub open spec fn empty(dimensions: nat) -> Histories {
        Histories {
            function_evals: Seq::empty(),
            best_function_value: Seq::empty(),
            sigma: Seq::empty(),
            axis_ratio: Seq::empty(),
            mean_dimensions: empty_rows(dimensions),
            sqrt_eigenvalues: empty_rows(dimensions),
            coord_axis_scales: empty_rows(dimensions),
        }
    }

    /// The number of data points.
    pub open spec fn num_points(self) -> nat {
        self.function_evals.len()
    }

    /// The number of dimensions.
    pub open spec fn dimensions(self) -> nat {
        self.mean_dimensions.len()
    }

    /// Whether every history has one entry for each data point, and each kind of row occurs once
    /// for each dimension.
    pub open spec fn aligned(self) -> bool {
        let n = self.num_points();
        &&& self.best_function_value.len() == n
        &&& self.sigma.len() == n
        &&& self.axis_ratio.len() == n
        &&& self.sqrt_eigenvalues.len() == self.dimensions()
        &&& self.coord_axis_scales.len() == self.dimensions()
        &&& rows_have_len(self.mean_dimensions, n)
        &&& rows_have_len(self.sqrt_eigenvalues, n)
        &&& rows_have_len(self.coord_axis_scales, n)
    }

    /// The histories with one more data point.
    pub open spec fn with_point(self, point: DataPoint) -> Histories {
        Histories {
            function_evals: self.function_evals.push(point.function_evals),
            best_function_value: self.best_function_value.push(point.recorded_best()),
            sigma: self.sigma.push(point.sigma.applied()),
            axis_ratio: self.axis_ratio.push(point.axis_ratio.applied()),
            mean_dimensions: push_to_rows(self.mean_dimensions, point.mean@),
            sqrt_eigenvalues: push_to_rows(self.sqrt_eigenvalues, point.recorded_axis_scales()),
            coord_axis_scales: push_to_rows(self.coord_axis_scales, point.recorded_coord_scales()),
        }
    }

    /// The histories with only the most recent data point.
    pub open spec fn only_latest(self) -> Histories {
        Histories {
            function_evals: latest(self.function_evals),
            best_function_value: latest(self.best_function_value),
            sigma: latest(self.sigma),
            axis_ratio: latest(self.axis_ratio),
            mean_dimensions: latest_of_rows(self.mean_dimensions),
            sqrt_eigenvalues: latest_of_rows(self.sqrt_eigenvalues),
            coord_axis_scales: latest_of_rows(self.coord_axis_scales),
        }
    }
}

/// Whether each row has `n` entries.
pub open spec fn rows_have_len(rows: Seq<Seq<Value>>, n: nat) -> bool {
    forall|i: int| 0 <= i < rows.len() ==> (#[trigger] rows[i]).len() == n
}

/// The entries of rows.
pub open spec fn rows_view(rows: Seq<Vec<Value>>) -> Seq<Seq<Value>> {
    rows.map_values(|row: Vec<Value>| row@)
}

/// Data points for the plot. Each history has one entry for each data point.
#[derive(Clone, Debug)]
pub struct PlotData {
    /// Function evaluations at which the other entries were recorded.
    pub function_evals: Vec<usize>,
    pub best_function_value: Vec<Value>,
    pub sigma: Vec<Value>,
    pub axis_ratio: Vec<Value>,
    // Each row of the following holds the history of one dimension.
    pub mean_dimensions: Vec<Vec<Value>>,
    pub sqrt_eigenvalues: Vec<Vec<Value>>,
    /// Standard deviation along each coordinate axis, without sigma.
    pub coord_axis_scales: Vec<Vec<Value>>,
}

impl View for PlotData {
    type V = Histories;

    open spec fn view(&self) -> Histories {
        Histories {
            function_evals: self.function_evals@,
            best_function_value: self.best_function_value@,
            sigma: self.sigma@,
            axis_ratio: self.axis_ratio@,
            mean_dimensions: rows_view(self.mean_dimensions@),
            sqrt_eigenvalues: rows_view(self.sqrt_eigenvalues@),
            coord_axis_scales: rows_view(self.coord_axis_scales@),
        }
    }
}

/// Makes `dimensions` empty rows.
fn new_rows(dimensions: usize) -> (rows: Vec<Vec<Value>>)
    ensures
        rows_view(rows@) == empty_rows(dimensions as nat),
{
    let mut rows: Vec<Vec<Value>> = Vec::new();
    let mut i: usize = 0;
    while i < dimensions
        invariant
            0 <= i <= dimensions,
            rows.len() == i,
            forall|k: int| 0 <= k < i ==> (#[trigger] rows[k])@ == Seq::<Value>::empty(),
        decreases dimensions - i,
    {
        rows.push(Vec::new());
        i = i + 1;
    }
    assert(rows_view(rows@) =~= empty_rows(dimensions as nat));
    rows
}

/// Appends one entry to each row.
fn push_entries(rows: &mut Vec<Vec<Value>>, entries: &Vec<Value>)
    requires
        old(rows).len() == entries.len(),
    ensures
        rows_view(final(rows)@) == push_to_rows(rows_view(old(rows)@), entries@),
{
    let mut i: usize = 0;
    while i < entries.len()
        invariant
            0 <= i <= entries.len(),
            rows.len() == entries.len(),
            rows.len() == old(rows).len(),
            forall|k: int|
                0 <= k < rows.len() ==> (#[trigger] rows[k])@ == if k < i {
                    old(rows)[k]@.push(entries[k])
                } else {
                    old(rows)[k]@
                },
        decreases entries.len() - i,
    {
        rows[i].push(entries[i]);
        i = i + 1;
    }
    assert(rows_view(rows@) =~= push_to_rows(rows_view(old(rows)@), entries@));
}

/// Drops all but the last entry of a history.
fn clear_history<T>(history: &mut Vec<T>)
    requires
        old(history).len() > 0,
    ensures
        final(history)@ == latest(old(history)@),
{
    let last = history.pop();
    history.clear();
    if let Some(entry) = last {
        history.push(entry);
    }
    assert(history@ =~= latest(old(history)@));
}

/// Drops all but the last entry of each row.
fn clear_rows(rows: &mut Vec<Vec<Value>>)
    requires
        forall|i: int|
            0 <= i < old(rows).len() ==> (#[trigger] rows_view(old(rows)@)[i]).len() > 0,
    ensures
        rows_view(final(rows)@) == latest_of_rows(rows_view(old(rows)@)),
{
    assert forall|k: int| 0 <= k < old(rows).len() implies (#[trigger] old(rows)[k]).len() > 0 by {
        assert(rows_view(old(rows)@)[k] == old(rows)[k]@);
    }
    let mut i: usize = 0;
    while i < rows.len()
        invariant
            0 <= i <= rows.len(),
            rows.len() == old(rows).len(),
            forall|k: int| 0 <= k < old(rows).len() ==> (#[trigger] old(rows)[k]).len() > 0,
            forall|k: int|
                0 <= k < rows.len() ==> (#[trigger] rows[k])@ == if k < i {
                    latest(old(rows)[k]@)
                } else {
                    old(rows)[k]@
                },
        decreases rows.len() - i,
    {
        clear_history(&mut rows[i]);
        i = i + 1;
    }
    assert(rows_view(rows@) =~= latest_of_rows(rows_view(old(rows)@)));
}

/// Puts the axis scales of a data point in ascending order and applies the offset to each.
fn sorted_axis_scales(point: &DataPoint) -> (moved: Vec<Value>)
    ensures
        moved@ == point.recorded_axis_scales(),
        moved.len() == point.sqrt_eigenvalues.len(),
{
    let scales = &point.sqrt_eigenvalues;
    let mut plain: Vec<Value> = Vec::new();
    let mut i: usize = 0;
    while i < scales.len()
        invariant
            0 <= i <= scales.len(),
            plain.len() == i,
            forall|k: int| 0 <= k < i ==> #[trigger] plain[k] == scales[k].value,
        decreases scales.len() - i,
    {
        plain.push(scales[i].value);
        i = i + 1;
    }
    assert(plain@ =~= point.axis_scales());
    let order = sort_places(&plain);
    let mut moved: Vec<Value> = Vec::new();
    assert(order.len() == places(order@).len());
    assert forall|k: int| 0 <= k < order.len() implies #[trigger] order[k] < scales.len() by {
        assert(places(order@)[k] == order[k]);
    }
    let mut j: usize = 0;
    while j < order.len()
        invariant
            0 <= j <= order.len(),
            moved.len() == j,
            forall|k: int| 0 <= k < order.len() ==> #[trigger] order[k] < scales.len(),
            forall|k: int|
                0 <= k < j ==> #[trigger] moved[k] == scales[order[k] as int].applied(),
        decreases order.len() - j,
    {
        moved.push(scales[order[j]].apply_offset());
        j = j + 1;
    }
    assert(moved@ =~= point.recorded_axis_scales());
    moved
}

impl PlotData {
    /// Creates data without any point.
    pub fn new(dimensions: usize) -> (data: PlotData)
        ensures
            data@ == Histories::empty(dimensions as nat),
            data@.aligned(),
    {
        PlotData {
            function_evals: Vec::new(),
            best_function_value: Vec::new(),
            sigma: Vec::new(),
            axis_ratio: Vec::new(),
            mean_dimensions: new_rows(dimensions),
            sqrt_eigenvalues: new_rows(dimensions),
            coord_axis_scales: new_rows(dimensions),
        }
    }

    /// Adds a data point.
    pub fn add_data_point(&mut self, point: &DataPoint)
        requires
            old(self)@.aligned(),
            point.has_dimensions(old(self)@.dimensions()),
        ensures
            final(self)@ == old(self)@.with_point(*point),
            final(self)@.aligned(),
    {
        self.function_evals.push(point.function_evals);
        let best: Value = match point.best_function_value {
            Some(best) => best.apply_offset(),
            // There is no best individual before the first evaluation. What is not a number is
            // left out when the history is drawn.
            None => Value::undefined(),
        };
        self.best_function_value.push(best);
        self.sigma.push(point.sigma.apply_offset());
        self.axis_ratio.push(point.axis_ratio.apply_offset());
        push_entries(&mut self.mean_dimensions, &point.mean);
        let axis_scales = sorted_axis_scales(point);
        push_entries(&mut self.sqrt_eigenvalues, &axis_scales);
        let coord_scales = apply_offsets(&point.coord_axis_scales);
        push_entries(&mut self.coord_axis_scales, &coord_scales);
        assert(self@ =~= old(self)@.with_point(*point));
    }

    /// Clears the data except for the most recent entry of each history.
    pub fn clear(&mut self)
        requires
            old(self)@.aligned(),
            old(self)@.num_points() > 0,
        ensures
            final(self)@ == old(self)@.only_latest(),
            final(self)@.aligned(),
    {
        clear_history(&mut self.function_evals);
        clear_history(&mut self.best_function_value);
        clear_history(&mut self.sigma);
        clear_history(&mut self.axis_ratio);
        clear_rows(&mut self.mean_dimensions);
        clear_rows(&mut self.coord_axis_scales);
        clear_rows(&mut self.sqrt_eigenvalues);
        assert(self@ =~= old(self)@.only_latest());
    }
}

} // verus!

//! The data plot of a run.
use crate::chart::{
    choose_label_format, elements_view, make_labelled_line, Chart, ChartModel, Element,
    LegendPosition, LineColor, CROSS_SIZE,
};
use crate::data::{DataPoint, Histories, PlotData};
use crate::layout::{
    flatten_rows, make_row_lines, pick_ranged_distances, push_values, take_absolute_values,
    RowLabel,
};
use crate::points::get_points;
use crate::range::{count, extremes, minimum, spans, Extremes};
use crate::value::{applied_offsets, apply_offsets, Offset, Value};
use vstd::prelude::*;
use vstd::slice::slice_subrange;
use vstd::string::StringExecFns;

verus! {

/// Configuration of the data plot.
#[derive(Clone, Debug)]
pub struct PlotOptions {
    /// Minimum function evaluations between each data point. Can be used to adjust the
    /// granularity of the recorded data points, with `0` recording a data point every
    /// generation.
    pub min_gap_evals: usize,
    /// Whether to use scientific notation for the labels of axes that are not logarithmic.
    pub scientific_notation: bool,
}

impl PlotOptions {
    /// Creates a new `PlotOptions` with the provided values.
    pub fn new(min_gap_evals: usize, scientific_notation: bool) -> (options: PlotOptions)
        ensures
            options.min_gap_evals == min_gap_evals,
            options.scientific_notation == scientific_notation,
    {
        PlotOptions { min_gap_evals, scientific_notation }
    }
}

/// Data plot for the algorithm.
///
/// Plots for each recorded data point the:
/// - Distance from the minimum objective function value
/// - Absolute objective function value
/// - Step size
/// - Maximum ratio between any two distribution axis scales
/// - Distribution mean
/// - Scaling of each distribution axis
/// - Standard deviation in each coordinate axis (without sigma)
#[derive(Clone, Debug)]
pub struct Plot {
    data: PlotData,
    options: PlotOptions,
    /// The last time a data point was recorded, in function evaluations.
    last_data_point_evals: usize,
}

/// Models a [`Plot`].
#[verifier::ext_equal]
pub struct PlotModel {
    pub histories: Histories,
    pub options: PlotOptions,
    pub last_data_point_evals: usize,
}

impl PlotModel {
    /// A plot that has recorded nothing.
    pub open spec fn empty(dimensions: nat, options: PlotOptions) -> PlotModel {
        PlotModel {
            histories: Histories::empty(dimensions),
            options,
            last_data_point_evals: 0,
        }
    }

    /// Whether the histories are valid.
    pub open spec fn valid(self) -> bool {
        self.histories.aligned()
    }

    /// When the next data point should be recorded, in function evaluations.
    pub open spec fn next_data_point_evals(self) -> int {
        self.last_data_point_evals + self.options.min_gap_evals
    }

    /// The plot with one more data point.
    pub open spec fn with_point(self, point: DataPoint) -> PlotModel {
        PlotModel {
            histories: self.histories.with_point(point),
            last_data_point_evals: point.function_evals,
            ..self
        }
    }

    /// The plot with only its most recent data point.
    pub open spec fn cleared(self) -> PlotModel {
        PlotModel { histories: self.histories.only_latest(), ..self }
    }

    /// The whole plot, given the distance of each best function value from the minimum.
    pub open spec fn page(self, distances: Seq<Value>) -> PageModel {
        let scientific_notation = self.options.scientific_notation;
        PageModel {
            top_left: self.histories.single_dimensioned_chart(distances, scientific_notation),
            top_right: self.histories.mean_chart(scientific_notation),
            bottom_left: self.histories.sqrt_eigenvalues_chart(scientific_notation),
            bottom_right: self.histories.coord_axis_scales_chart(scientific_notation),
        }
    }
}

impl View for Plot {
    type V = PlotModel;

    closed spec fn view(&self) -> PlotModel {
        PlotModel {
            histories: self.data@,
            options: self.options,
            last_data_point_evals: self.last_data_point_evals,
        }
    }
}

/// The four charts of a plot, by their place on the image.
#[derive(Clone, Debug)]
pub struct Page {
    pub top_left: Chart,
    pub top_right: Chart,
    pub bottom_left: Chart,
    pub bottom_right: Chart,
}

/// Models a [`Page`].
#[verifier::ext_equal]
pub struct PageModel {
    pub top_left: ChartModel,
    pub top_right: ChartModel,
    pub bottom_left: ChartModel,
    pub bottom_right: ChartModel,
}

impl View for Page {
    type V = PageModel;

    open spec fn view(&self) -> PageModel {
        PageModel {
            top_left: self.top_left@,
            top_right: self.top_right@,
            bottom_left: self.bottom_left@,
            bottom_right: self.bottom_right@,
        }
    }
}

impl Plot {
    /// Initializes an empty `Plot` with the provided options.
    pub fn new(dimensions: usize, options: PlotOptions) -> (plot: Plot)
        ensures
            plot@ == PlotModel::empty(dimensions as nat, options),
            plot@.valid(),
    {
        Plot { data: PlotData::new(dimensions), options, last_data_point_evals: 0 }
    }

    /// Returns the next time a data point should be recorded, in function evaluations.
    pub fn get_next_data_point_evals(&self) -> (evals: usize)
        requires
            self@.next_data_point_evals() <= usize::MAX,
        ensures
            evals == self@.next_data_point_evals(),
    {
        self.last_data_point_evals + self.options.min_gap_evals
    }

    /// Adds a data point to the plot.
    pub fn add_data_point(&mut self, point: &DataPoint)
        requires
            old(self)@.valid(),
            point.has_dimensions(old(self)@.histories.dimensions()),
        ensures
            final(self)@ == old(self)@.with_point(*point),
            final(self)@.valid(),
    {
        self.data.add_data_point(point);
        self.last_data_point_evals = point.function_evals;
    }

    /// Clears the plot data except for the most recent data point for each variable. Can be
    /// called after the plot was saved (or not) to avoid endlessly growing allocations.
    pub fn clear(&mut self)
        requires
            old(self)@.valid(),
            old(self)@.histories.num_points() > 0,
        ensures
            final(self)@ == old(self)@.cleared(),
            final(self)@.valid(),
    {
        self.data.clear();
    }

    /// The recorded data.
    pub fn data(&self) -> (data: &PlotData)
        ensures
            data@ == self@.histories,
    {
        &self.data
    }

    /// Returns the overall best function value, from which the distances are measured.
    pub fn min_function_value(&self) -> (value: Value)
        requires
            self@.valid(),
            self@.histories.num_points() > 0,
        ensures
            value == self@.histories.min_value(),
    {
        let place = minimum(&self.data.best_function_value);
        self.data.best_function_value[place]
    }

    /// Lays out all single valued histories (f - min(f), abs(f), sigma, axis ratio). Takes the
    /// difference between each recorded best function value and the overall best one.
    pub fn single_dimensioned_chart(&self, differences: &Vec<Offset>) -> (chart: Chart)
        requires
            self@.valid(),
            self@.histories.drawable(),
            differences.len() == self@.histories.num_points(),
        ensures
            chart@ == self@.histories.single_dimensioned_chart(
                applied_offsets(differences@),
                self@.options.scientific_notation,
            ),
            spans(
                self@.histories.single_dimensioned_values(applied_offsets(differences@)),
                chart.y_range,
            ),
    {
        let data = &self.data;
        let evals = data.function_evals.as_slice();
        let n: usize = data.function_evals.len();
        let min_place: usize = minimum(&data.best_function_value);
        let min_value = data.best_function_value[min_place];
        let min_count: usize = count(&data.best_function_value, min_value);
        let distances = apply_offsets(differences);
        let abs_best = take_absolute_values(&data.best_function_value);

        let mut y_values: Vec<Value> = pick_ranged_distances(&distances, min_place, min_count);
        push_values(&mut y_values, &abs_best);
        push_values(&mut y_values, &data.sigma);
        push_values(&mut y_values, &data.axis_ratio);
        let y_range = extremes(&y_values);

        let num_left: usize = if min_count > 1 {
            min_place + 1
        } else {
            min_place
        };
        let left = get_points(
            slice_subrange(evals, 0, num_left),
            slice_subrange(distances.as_slice(), 0, num_left),
        );
        let right = get_points(
            slice_subrange(evals, min_place + 1, n),
            slice_subrange(distances.as_slice(), min_place + 1, n),
        );
        let mut elements: Vec<Element> = Vec::new();
        elements.push(make_labelled_line("f - min(f)", LineColor::Cyan, left));
        elements.push(Element::Line { label: None, color: LineColor::Cyan, points: right });
        elements.push(
            make_labelled_line("abs(f)", LineColor::Blue, get_points(evals, abs_best.as_slice())),
        );
        if !min_value.is_nan() {
            elements.push(
                Element::Cross {
                    x: data.function_evals[min_place],
                    y: min_value.abs(),
                    size: CROSS_SIZE,
                    color: LineColor::Red,
                },
            );
        }
        elements.push(
            make_labelled_line("Sigma", LineColor::Green, get_points(evals, data.sigma.as_slice())),
        );
        elements.push(
            make_labelled_line(
                "Axis Ratio",
                LineColor::Red,
                get_points(evals, data.axis_ratio.as_slice()),
            ),
        );
        assert(elements_view(elements@) =~= self@.histories.single_dimensioned_elements(
            applied_offsets(differences@),
        ));
        self.configure_chart(
            "f - min(f), abs(f), Sigma, Axis Ratio",
            Some(LegendPosition::LowerLeft),
            y_range,
            true,
            elements,
        )
    }

    /// Lays out the mean.
    pub fn mean_chart(&self) -> (chart: Chart)
        requires
            self@.valid(),
            self@.histories.drawable(),
            self@.histories.dimensions() > 0,
        ensures
            chart@ == self@.histories.mean_chart(self@.options.scientific_notation),
            spans(self@.histories.mean_dimensions.flatten(), chart.y_range),
    {
        let y_values = flatten_rows(&self.data.mean_dimensions);
        let y_range = extremes(&y_values);
        let elements = make_row_lines(
            &self.data.function_evals,
            &self.data.mean_dimensions,
            RowLabel::Mean,
        );
        self.configure_chart("Mean", Some(LegendPosition::LowerRight), y_range, false, elements)
    }

    /// Lays out the distribution axis scales.
    pub fn sqrt_eigenvalues_chart(&self) -> (chart: Chart)
        requires
            self@.valid(),
            self@.histories.drawable(),
            self@.histories.dimensions() > 0,
        ensures
            chart@ == self@.histories.sqrt_eigenvalues_chart(self@.options.scientific_notation),
            spans(self@.histories.sqrt_eigenvalues.flatten(), chart.y_range),
    {
        let y_values = flatten_rows(&self.data.sqrt_eigenvalues);
        let y_range = extremes(&y_values);
        let elements = make_row_lines(
            &self.data.function_evals,
            &self.data.sqrt_eigenvalues,
            RowLabel::Absent,
        );
        self.configure_chart("Distribution Axis Scales", None, y_range, true, elements)
    }

    /// Lays out the coordinate axis standard deviations (without sigma).
    pub fn coord_axis_scales_chart(&self) -> (chart: Chart)
        requires
            self@.valid(),
            self@.histories.drawable(),
            self@.histories.dimensions() > 0,
        ensures
            chart@ == self@.histories.coord_axis_scales_chart(self@.options.scientific_notation),
            spans(self@.histories.coord_axis_scales.flatten(), chart.y_range),
    {
        let y_values = flatten_rows(&self.data.coord_axis_scales);
        let y_range = extremes(&y_values);
        let elements = make_row_lines(
            &self.data.function_evals,
            &self.data.coord_axis_scales,
            RowLabel::Number,
        );
        self.configure_chart(
            "Coord. Axis Standard Deviations (without sigma)",
            Some(LegendPosition::LowerLeft),
            y_range,
            true,
            elements,
        )
    }

    /// Lays out a chart with the common style.
    fn configure_chart(
        &self,
        caption: &str,
        legend: Option<LegendPosition>,
        y_range: Extremes,
        log_y: bool,
        elements: Vec<Element>,
    ) -> (chart: Chart)
        requires
            self@.histories.drawable(),
        ensures
            chart@ == self@.histories.chart(
                caption@,
                legend,
                log_y,
                self@.options.scientific_notation,
                y_range,
                elements_view(elements@),
            ),
    {
        let x_start: usize = self.data.function_evals[0];
        let x_end: usize = self.data.function_evals[self.data.function_evals.len() - 1];
        Chart {
            caption: String::from_str(caption),
            legend,
            log_y,
            y_labels: choose_label_format(log_y, self.options.scientific_notation),
            x_start,
            x_end,
            x_width: x_end - x_start,
            y_range,
            elements,
        }
    }

    /// Lays out the whole plot: the four charts and where each stands on the image.
    pub fn page(&self, differences: &Vec<Offset>) -> (page: Page)
        requires
            self@.valid(),
            self@.histories.drawable(),
            self@.histories.dimensions() > 0,
            differences.len() == self@.histories.num_points(),
        ensures
            page@ == self@.page(applied_offsets(differences@)),
    {
        Page {
            top_left: self.single_dimensioned_chart(differences),
            top_right: self.mean_chart(),
            bottom_left: self.sqrt_eigenvalues_chart(),
            bottom_right: self.coord_axis_scales_chart(),
        }
    }
}

} // verus!

//! What the four charts of a plot show of the recorded histories.
use crate::chart::{
    elements_view, labelled_line, plain_line, y_label_format, ChartModel, Element, ElementModel,
    LegendPosition, LineColor, CROSS_SIZE,
};
use crate::data::{rows_view, Histories};
use crate::label::{decimal, decimal_text, mean_label, mean_text};
use crate::palette::{palette_color, pick_rgb};
use crate::points::{get_points, points};
use crate::range::{minimum_place, occurrences, range_of, Extremes};
use crate::value::Value;
use vstd::prelude::*;

verus! {

/// Which label the line of a dimension has.
#[derive(Clone, Copy, Debug, PartialEq, Eq, Structural)]
pub enum RowLabel {
    /// None.
    Absent,
    /// The number of the dimension.
    Number,
    /// The number of the dimension as an index of `x`.
    Mean,
}

/// The absolute values.
pub open spec fn absolute_values(values: Seq<Value>) -> Seq<Value> {
    values.map_values(|value: Value| value.absolute())
}

/// Each value with its place.
pub open spec fn numbered(values: Seq<Value>) -> Seq<(int, Value)> {
    Seq::new(values.len(), |i: int| (i, values[i]))
}

/// Whether the distance at a place counts for the range of the y axis: it is a number, and it
/// is not that of the minimum unless the minimum is drawn, which it is where it is reached more
/// than once.
pub open spec fn counts_for_range(min_place: int, min_count: nat) -> spec_fn((int, Value)) -> bool {
    |entry: (int, Value)| !entry.1.nan() && (min_count > 1 || entry.0 != min_place)
}

/// The second part of a pair.
pub open spec fn entry_value() -> spec_fn((int, Value)) -> Value {
    |entry: (int, Value)| entry.1
}

/// The distances to the minimum that count for the range of the y axis.
pub open spec fn ranged_distances(
    distances: Seq<Value>,
    min_place: int,
    min_count: nat,
) -> Seq<Value> {
    numbered(distances).filter(counts_for_range(min_place, min_count)).map_values(entry_value())
}

impl Histories {
    /// Whether there is something to draw: a data point, and an x axis that does not run
    /// backwards.
    pub open spec fn drawable(self) -> bool {
        &&& self.num_points() > 0
        &&& self.function_evals.first() <= self.function_evals.last()
    }

    /// The place of the overall best function value.
    pub open spec fn min_place(self) -> int {
        minimum_place(self.best_function_value)
    }

    /// The overall best function value.
    pub open spec fn min_value(self) -> Value {
        self.best_function_value[self.min_place()]
    }

    /// How often the overall best function value is reached.
    pub open spec fn min_count(self) -> nat {
        occurrences(self.best_function_value, self.min_value())
    }

    /// How many distances are drawn to the left of the minimum. The minimum itself is among them
    /// where it is reached more than once, which avoids gaps in the line.
    pub open spec fn num_left(self) -> int {
        if self.min_count() > 1 {
            self.min_place() + 1
        } else {
            self.min_place()
        }
    }

    /// The values that the y axis of the chart of single valued histories has to encompass.
    pub open spec fn single_dimensioned_values(self, distances: Seq<Value>) -> Seq<Value> {
        ranged_distances(distances, self.min_place(), self.min_count()) + absolute_values(
            self.best_function_value,
        ) + self.sigma + self.axis_ratio
    }

    /// What is drawn of the single valued histories, given the distance of each best function
    /// value from the minimum.
    pub open spec fn single_dimensioned_elements(self, distances: Seq<Value>) -> Seq<ElementModel> {
        let evals = self.function_evals;
        let place = self.min_place();
        let left = self.num_left();
        let lines = seq![
            labelled_line(
                "f - min(f)"@,
                LineColor::Cyan,
                points(evals.take(left), distances.take(left)),
            ),
            plain_line(
                LineColor::Cyan,
                points(evals.skip(place + 1), distances.skip(place + 1)),
            ),
            labelled_line(
                "abs(f)"@,
                LineColor::Blue,
                points(evals, absolute_values(self.best_function_value)),
            ),
        ];
        let cross = if self.min_value().nan() {
            Seq::empty()
        } else {
            seq![
                ElementModel::Cross {
                    x: evals[place],
                    y: self.min_value().absolute(),
                    size: CROSS_SIZE,
                    color: LineColor::Red,
                },
            ]
        };
        lines + cross + seq![
            labelled_line("Sigma"@, LineColor::Green, points(evals, self.sigma)),
            labelled_line("Axis Ratio"@, LineColor::Red, points(evals, self.axis_ratio)),
        ]
    }

    /// A chart of the recorded histories.
    pub open spec fn chart(
        self,
        caption: Seq<char>,
        legend: Option<LegendPosition>,
        log_y: bool,
        scientific_notation: bool,
        y_range: Extremes,
        elements: Seq<ElementModel>,
    ) -> ChartModel {
        ChartModel {
            caption,
            legend,
            log_y,
            y_labels: y_label_format(log_y, scientific_notation),
            x_start: self.function_evals.first() as int,
            x_end: self.function_evals.last() as int,
            x_width: self.function_evals.last() - self.function_evals.first(),
            y_range,
            elements,
        }
    }

    /// The chart of the single valued histories.
    pub open spec fn single_dimensioned_chart(
        self,
        distances: Seq<Value>,
        scientific_notation: bool,
    ) -> ChartModel {
        self.chart(
            "f - min(f), abs(f), Sigma, Axis Ratio"@,
            Some(LegendPosition::LowerLeft),
            true,
            scientific_notation,
            range_of(self.single_dimensioned_values(distances)),
            self.single_dimensioned_elements(distances),
        )
    }

    /// The chart of the mean, on a linear y axis.
    pub open spec fn mean_chart(self, scientific_notation: bool) -> ChartModel {
        self.chart(
            "Mean"@,
            Some(LegendPosition::LowerRight),
            false,
            scientific_notation,
            range_of(self.mean_dimensions.flatten()),
            row_lines(self.function_evals, self.mean_dimensions, RowLabel::Mean),
        )
    }

    /// The chart of the distribution axis scales.
    pub open spec fn sqrt_eigenvalues_chart(self, scientific_notation: bool) -> ChartModel {
        self.chart(
            "Distribution Axis Scales"@,
            None,
            true,
            scientific_notation,
            range_of(self.sqrt_eigenvalues.flatten()),
            row_lines(self.function_evals, self.sqrt_eigenvalues, RowLabel::Absent),
        )
    }

    /// The chart of the standard deviations along the coordinate axes.
    pub open spec fn coord_axis_scales_chart(self, scientific_notation: bool) -> ChartModel {
        self.chart(
            "Coord. Axis Standard Deviations (without sigma)"@,
            Some(LegendPosition::LowerLeft),
            true,
            scientific_notation,
            range_of(self.coord_axis_scales.flatten()),
            row_lines(self.function_evals, self.coord_axis_scales, RowLabel::Number),
        )
    }
}

/// The label of the line of one dimension.
pub open spec fn row_label(label: RowLabel, dimension: nat) -> Option<Seq<char>> {
    match label {
        RowLabel::Absent => None,
        RowLabel::Number => Some(decimal(dimension)),
        RowLabel::Mean => Some(mean_label(dimension)),
    }
}

/// The line of one dimension, in the colour that the palette gives to it.
pub open spec fn row_line(
    evals: Seq<usize>,
    row: Seq<Value>,
    label: RowLabel,
    dimension: nat,
) -> ElementModel {
    let color = palette_color(dimension as int);
    ElementModel::Line {
        label: row_label(label, dimension),
        color: LineColor::Rgb(color.0, color.1, color.2),
        points: points(evals, row),
    }
}

/// One line for each row.
pub open spec fn row_lines(
    evals: Seq<usize>,
    rows: Seq<Seq<Value>>,
    label: RowLabel,
) -> Seq<ElementModel> {
    Seq::new(rows.len(), |i: int| row_line(evals, rows[i], label, i as nat))
}

/// Makes one line for each row.
pub(crate) fn make_row_lines(
    evals: &Vec<usize>,
    rows: &Vec<Vec<Value>>,
    label: RowLabel,
) -> (elements: Vec<Element>)
    ensures
        elements_view(elements@) == row_lines(evals@, rows_view(rows@), label),
{
    let mut elements: Vec<Element> = Vec::new();
    let mut i: usize = 0;
    while i < rows.len()
        invariant
            0 <= i <= rows.len(),
            elements.len() == i,
            forall|k: int|
                0 <= k < i ==> (#[trigger] elements[k])@ == row_line(
                    evals@,
                    rows[k]@,
                    label,
                    k as nat,
                ),
        decreases rows.len() - i,
    {
        let drawn = get_points(evals.as_slice(), rows[i].as_slice());
        let text: Option<String> = match label {
            RowLabel::Absent => None,
            RowLabel::Number => Some(decimal_text(i)),
            RowLabel::Mean => Some(mean_text(i)),
        };
        let rgb = pick_rgb(i);
        elements.push(
            Element::Line {
                label: text,
                color: LineColor::Rgb(rgb.0, rgb.1, rgb.2),
                points: drawn,
            },
        );
        i = i + 1;
    }
    assert(elements_view(elements@) =~= row_lines(evals@, rows_view(rows@), label));
    elements
}

/// Takes the absolute value of each value.
pub(crate) fn take_absolute_values(values: &Vec<Value>) -> (absolute: Vec<Value>)
    ensures
        absolute@ == absolute_values(values@),
{
    let mut absolute: Vec<Value> = Vec::new();
    let mut i: usize = 0;
    while i < values.len()
        invariant
            0 <= i <= values.len(),
            absolute.len() == i,
            forall|k: int| 0 <= k < i ==> #[trigger] absolute[k] == values[k].absolute(),
        decreases values.len() - i,
    {
        absolute.push(values[i].abs());
        i = i + 1;
    }
    assert(absolute@ =~= absolute_values(values@));
    absolute
}

/// Appends copies of values.
pub(crate) fn push_values(values: &mut Vec<Value>, more: &Vec<Value>)
    ensures
        final(values)@ == old(values)@ + more@,
{
    let mut i: usize = 0;
    while i < more.len()
        invariant
            0 <= i <= more.len(),
            values@ == old(values)@ + more@.take(i as int),
        decreases more.len() - i,
    {
        values.push(more[i]);
        assert(more@.take(i + 1) =~= more@.take(i as int).push(more[i as int]));
        i = i + 1;
    }
    assert(more@.take(more.len() as int) =~= more@);
}

/// Puts the values of all rows in one list.
pub(crate) fn flatten_rows(rows: &Vec<Vec<Value>>) -> (values: Vec<Value>)
    ensures
        values@ == rows_view(rows@).flatten(),
{
    let mut values: Vec<Value> = Vec::new();
    let mut i: usize = 0;
    while i < rows.len()
        invariant
            0 <= i <= rows.len(),
            values@ == rows_view(rows@).take(i as int).flatten(),
        decreases rows.len() - i,
    {
        push_values(&mut values, &rows[i]);
        proof {
            let all = rows_view(rows@);
            assert(all.take(i + 1) =~= all.take(i as int).push(all[i as int]));
            all.take(i as int).lemma_flatten_push(all[i as int]);
        }
        i = i + 1;
    }
    assert(rows_view(rows@).take(rows.len() as int) =~= rows_view(rows@));
    values
}

/// Picks the distances to the minimum that count for the range of the y axis.
pub(crate) fn pick_ranged_distances(
    distances: &Vec<Value>,
    min_place: usize,
    min_count: usize,
) -> (picked: Vec<Value>)
    ensures
        picked@ == ranged_distances(distances@, min_place as int, min_count as nat),
{
    let mut picked: Vec<Value> = Vec::new();
    let mut i: usize = 0;
    let ghost all = numbered(distances@);
    let ghost counts = counts_for_range(min_place as int, min_count as nat);
    proof {
        reveal(Seq::filter);
        assert(all.take(0).filter(counts).map_values(entry_value()) =~= Seq::<Value>::empty());
    }
    while i < distances.len()
        invariant
            0 <= i <= distances.len(),
            all == numbered(distances@),
            counts == counts_for_range(min_place as int, min_count as nat),
            picked@ == all.take(i as int).filter(counts).map_values(entry_value()),
        decreases distances.len() - i,
    {
        proof {
            reveal(Seq::filter);
            assert(all.take(i + 1).drop_last() =~= all.take(i as int));
            let before = all.take(i as int).filter(counts);
            let entry = all[i as int];
            assert(before.push(entry).map_values(entry_value()) =~= before.map_values(
                entry_value(),
            ).push(entry.1));
        }
        if !distances[i].is_nan() && (min_count > 1 || i != min_place) {
            picked.push(distances[i]);
        }
        i = i + 1;
    }
    assert(all.take(distances.len() as int) =~= all);
    picked
}

} // verus!

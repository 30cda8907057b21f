//! Charts: what is drawn, before it is drawn.
use crate::range::Extremes;
use crate::value::Value;
use vstd::prelude::*;
use vstd::string::StringExecFns;

verus! {

/// Height of plot images in pixels.
pub const PLOT_HEIGHT: u32 = 1200;

/// Width of plot images in pixels.
pub const PLOT_WIDTH: u32 = 1200;

/// The size of the cross that marks the best function value.
pub const CROSS_SIZE: u32 = 10;

/// The length of the line that shows a colour in the legend, in pixels.
pub const LEGEND_LINE: i32 = 20;

/// Where the legend of a chart stands.
#[derive(Clone, Copy, Debug, PartialEq, Eq, Structural)]
pub enum LegendPosition {
    LowerLeft,
    LowerRight,
}

/// How the labels of a y axis are written.
#[derive(Clone, Copy, Debug, PartialEq, Eq, Structural)]
pub enum LabelFormat {
    /// As the nearest power of ten.
    PowerOfTen,
    /// In scientific notation.
    Scientific,
    /// As a plain number.
    Plain,
}

/// The colour of a line.
#[derive(Clone, Copy, Debug, PartialEq, Eq, Structural)]
pub enum LineColor {
    Cyan,
    Blue,
    Green,
    Red,
    /// A colour given by its red, green and blue parts.
    Rgb(u8, u8, u8),
}

/// One thing to draw on a chart.
#[derive(Clone, Debug)]
pub enum Element {
    /// A line through points, with a legend entry where there is a label.
    Line { label: Option<String>, color: LineColor, points: Vec<(usize, Value)> },
    /// A cross at a point.
    Cross { x: usize, y: Value, size: u32, color: LineColor },
}

/// A chart.
#[derive(Clone, Debug)]
pub struct Chart {
    pub caption: String,
    pub legend: Option<LegendPosition>,
    /// Whether the y axis is logarithmic.
    pub log_y: bool,
    pub y_labels: LabelFormat,
    /// The first function evaluation on the x axis.
    pub x_start: usize,
    /// The last function evaluation on the x axis.
    pub x_end: usize,
    /// The number of evaluations between them.
    pub x_width: usize,
    /// The smallest and the largest number that the y axis has to encompass.
    pub y_range: Extremes,
    /// What is drawn, in this order.
    pub elements: Vec<Element>,
}

/// Models an [`Element`].
#[verifier::ext_equal]
pub enum ElementModel {
    Line { label: Option<Seq<char>>, color: LineColor, points: Seq<(usize, Value)> },
    Cross { x: usize, y: Value, size: u32, color: LineColor },
}

/// Models a [`Chart`].
#[verifier::ext_equal]
pub struct ChartModel {
    pub caption: Seq<char>,
    pub legend: Option<LegendPosition>,
    pub log_y: bool,
    pub y_labels: LabelFormat,
    pub x_start: int,
    pub x_end: int,
    pub x_width: int,
    pub y_range: Extremes,
    pub elements: Seq<ElementModel>,
}

impl View for Element {
    type V = ElementModel;

    open spec fn view(&self) -> ElementModel {
        match self {
            Element::Line { label, color, points } => ElementModel::Line {
                label: match label {
                    Some(text) => Some(text@),
                    None => None,
                },
                color: *color,
                points: points@,
            },
            Element::Cross { x, y, size, color } => ElementModel::Cross {
                x: *x,
                y: *y,
                size: *size,
                color: *color,
            },
        }
    }
}

/// Models a list of elements.
pub open spec fn elements_view(elements: Seq<Element>) -> Seq<ElementModel> {
    elements.map_values(|element: Element| element@)
}

impl View for Chart {
    type V = ChartModel;

    open spec fn view(&self) -> ChartModel {
        ChartModel {
            caption: self.caption@,
            legend: self.legend,
            log_y: self.log_y,
            y_labels: self.y_labels,
            x_start: self.x_start as int,
            x_end: self.x_end as int,
            x_width: self.x_width as int,
            y_range: self.y_range,
            elements: elements_view(self.elements@),
        }
    }
}

/// A line with a legend entry.
pub open spec fn labelled_line(
    label: Seq<char>,
    color: LineColor,
    points: Seq<(usize, Value)>,
) -> ElementModel {
    ElementModel::Line { label: Some(label), color, points }
}

/// A line without a legend entry.
pub open spec fn plain_line(color: LineColor, points: Seq<(usize, Value)>) -> ElementModel {
    ElementModel::Line { label: None, color, points }
}

/// How the labels of a y axis are written: as powers of ten on a logarithmic axis, and else as
/// the options say.
pub open spec fn y_label_format(log_y: bool, scientific_notation: bool) -> LabelFormat {
    if log_y {
        LabelFormat::PowerOfTen
    } else if scientific_notation {
        LabelFormat::Scientific
    } else {
        LabelFormat::Plain
    }
}

/// Decides how the labels of a y axis are written.
pub fn choose_label_format(log_y: bool, scientific_notation: bool) -> (format: LabelFormat)
    ensures
        format == y_label_format(log_y, scientific_notation),
{
    if log_y {
        LabelFormat::PowerOfTen
    } else if scientific_notation {
        LabelFormat::Scientific
    } else {
        LabelFormat::Plain
    }
}

/// Makes a line with a legend entry.
pub fn make_labelled_line(
    label: &str,
    color: LineColor,
    points: Vec<(usize, Value)>,
) -> (element: Element)
    ensures
        element@ == labelled_line(label@, color, points@),
{
    Element::Line { label: Some(String::from_str(label)), color, points }
}

/// The line that shows a colour in the legend, from its left end.
pub fn legend_line(x: i32, y: i32) -> (ends: Vec<(i32, i32)>)
    requires
        x + LEGEND_LINE <= i32::MAX,
    ensures
        ends@ == seq![(x, y), ((x + LEGEND_LINE) as i32, y)],
{
    let ends = vec![(x, y), (x + LEGEND_LINE, y)];
    assert(ends@ =~= seq![(x, y), ((x + LEGEND_LINE) as i32, y)]);
    ends
}

} // verus!

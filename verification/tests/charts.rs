use cmaes_plotting::chart::{
    legend_line, Chart, Element, LabelFormat, LegendPosition, LineColor, PLOT_HEIGHT, PLOT_WIDTH,
};
use cmaes_plotting::data::DataPoint;
use cmaes_plotting::label::{decimal_text, mean_text};
use cmaes_plotting::plot::{Plot, PlotOptions};
use cmaes_plotting::points::get_points;
use cmaes_plotting::value::{Offset, Value};

fn v(x: f64) -> Value {
    Value::from_bits(x.to_bits())
}

fn vs(xs: &[f64]) -> Vec<Value> {
    xs.iter().map(|x| v(*x)).collect()
}

// An offset that leaves numbers as they are keeps expected values short.
fn same(x: f64) -> Offset {
    Offset { value: v(x), raised: v(x), lowered: v(x) }
}

fn plot_of(best: &[Option<f64>], dimensions: usize, scientific: bool) -> Plot {
    let mut plot = Plot::new(dimensions, PlotOptions::new(0, scientific));
    for (i, value) in best.iter().enumerate() {
        let x = 1.0 + i as f64;
        plot.add_data_point(&DataPoint {
            function_evals: 10 * (i + 1),
            best_function_value: value.map(same),
            sigma: same(100.0 * x),
            axis_ratio: same(1000.0 * x),
            mean: (0..dimensions).map(|d| v(x + d as f64)).collect(),
            sqrt_eigenvalues: (0..dimensions).map(|d| same(x + d as f64)).collect(),
            coord_axis_scales: (0..dimensions).map(|d| same(x - d as f64)).collect(),
        });
    }
    plot
}

fn differences(plot: &Plot) -> Vec<Offset> {
    let min = f64::from_bits(plot.min_function_value().to_bits());
    plot.data()
        .best_function_value
        .iter()
        .map(|y| same(f64::from_bits(y.to_bits()) - min))
        .collect()
}

fn line(element: &Element) -> (Option<&str>, LineColor, Vec<(usize, f64)>) {
    match element {
        Element::Line { label, color, points } => (
            label.as_deref(),
            *color,
            points.iter().map(|p| (p.0, f64::from_bits(p.1.to_bits()))).collect(),
        ),
        Element::Cross { .. } => panic!("not a line"),
    }
}

fn assert_encompassed(chart: &Chart) {
    for element in &chart.elements {
        let points = match element {
            Element::Line { points, .. } => points.clone(),
            Element::Cross { x, y, .. } => vec![(*x, *y)],
        };
        for (x, y) in points {
            assert!(chart.y_range.low.at_most(y));
            assert!(y.at_most(chart.y_range.high));
            assert!(chart.x_start <= x && x <= chart.x_end);
        }
    }
}

#[test]
fn points_without_numbers_are_left_out() {
    let drawn = get_points(&[1, 2, 3, 4], &vs(&[5.0, f64::NAN, 7.0]));
    assert_eq!(drawn, vec![(1, v(5.0)), (3, v(7.0))]);
    assert_eq!(get_points(&[1], &vs(&[1.0, 2.0])), vec![(1, v(1.0))]);
    assert_eq!(get_points(&[], &vs(&[1.0])), vec![]);
}

#[test]
fn single_minimum_is_left_out_of_the_distance_line() {
    let plot = plot_of(&[None, Some(-8.0), Some(-9.0), Some(-5.0)], 2, false);
    assert_eq!(plot.min_function_value(), v(-9.0));
    let chart = plot.single_dimensioned_chart(&differences(&plot));
    assert_eq!(chart.caption, "f - min(f), abs(f), Sigma, Axis Ratio");
    assert_eq!(chart.legend, Some(LegendPosition::LowerLeft));
    assert!(chart.log_y);
    assert_eq!(chart.y_labels, LabelFormat::PowerOfTen);
    assert_eq!((chart.x_start, chart.x_end, chart.x_width), (10, 40, 30));
    assert_eq!(chart.elements.len(), 6);
    assert_eq!(
        line(&chart.elements[0]),
        (Some("f - min(f)"), LineColor::Cyan, vec![(20, 1.0)])
    );
    assert_eq!(line(&chart.elements[1]), (None, LineColor::Cyan, vec![(40, 4.0)]));
    assert_eq!(
        line(&chart.elements[2]),
        (Some("abs(f)"), LineColor::Blue, vec![(20, 8.0), (30, 9.0), (40, 5.0)])
    );
    match &chart.elements[3] {
        Element::Cross { x, y, size, color } => {
            assert_eq!((*x, *y, *size, *color), (30, v(9.0), 10, LineColor::Red));
        }
        Element::Line { .. } => panic!("not a cross"),
    }
    assert_eq!(
        line(&chart.elements[4]),
        (
            Some("Sigma"),
            LineColor::Green,
            vec![(10, 100.0), (20, 200.0), (30, 300.0), (40, 400.0)]
        )
    );
    assert_eq!(
        line(&chart.elements[5]),
        (
            Some("Axis Ratio"),
            LineColor::Red,
            vec![(10, 1000.0), (20, 2000.0), (30, 3000.0), (40, 4000.0)]
        )
    );
    assert_eq!(chart.y_range.low, v(1.0));
    assert_eq!(chart.y_range.high, v(4000.0));
    assert_encompassed(&chart);
}

#[test]
fn repeated_minimum_is_drawn() {
    let plot = plot_of(&[Some(3.0), Some(2.0), Some(4.0), Some(2.0)], 1, false);
    let chart = plot.single_dimensioned_chart(&differences(&plot));
    assert_eq!(line(&chart.elements[0]).2, vec![(10, 1.0), (20, 0.0)]);
    assert_eq!(line(&chart.elements[1]).2, vec![(30, 2.0), (40, 0.0)]);
    assert_eq!(chart.y_range.low, v(0.0));
    assert_encompassed(&chart);
}

#[test]
fn undefined_value_does_not_hide_the_minimum() {
    let plot = plot_of(&[Some(2.0), None, Some(5.0)], 1, false);
    assert_eq!(plot.min_function_value(), v(2.0));
    let chart = plot.single_dimensioned_chart(&differences(&plot));
    assert!(line(&chart.elements[0]).2.is_empty());
    assert_eq!(line(&chart.elements[1]).2, vec![(30, 3.0)]);
    match &chart.elements[3] {
        Element::Cross { x, y, .. } => assert_eq!((*x, *y), (10, v(2.0))),
        Element::Line { .. } => panic!("not a cross"),
    }
    assert_encompassed(&chart);
}

#[test]
fn distance_line_depends_on_differences() {
    let p = plot_of(&[None, Some(8.0), Some(3.0), Some(5.0)], 1, false);
    let q = plot_of(&[None, Some(-92.0), Some(-97.0), Some(-95.0)], 1, false);
    let a = p.single_dimensioned_chart(&differences(&p));
    let b = q.single_dimensioned_chart(&differences(&q));
    assert_eq!(line(&a.elements[0]), line(&b.elements[0]));
    assert_eq!(line(&a.elements[1]), line(&b.elements[1]));
    match (&a.elements[3], &b.elements[3]) {
        (Element::Cross { x, .. }, Element::Cross { x: other, .. }) => assert_eq!(x, other),
        _ => panic!("not crosses"),
    }
}

#[test]
fn undefined_minimum_has_no_cross() {
    let plot = plot_of(&[None], 1, false);
    assert!(plot.min_function_value().is_nan());
    let chart = plot.single_dimensioned_chart(&differences(&plot));
    assert_eq!(chart.elements.len(), 5);
    assert!(line(&chart.elements[0]).2.is_empty());
    assert!(line(&chart.elements[1]).2.is_empty());
    assert!(line(&chart.elements[2]).2.is_empty());
    assert_eq!(chart.y_range.low, v(100.0));
    assert_eq!(chart.y_range.high, v(1000.0));
    assert_eq!(chart.x_width, 0);
}

#[test]
fn mean_chart_has_one_line_for_each_dimension() {
    let plot = plot_of(&[Some(1.0), Some(0.5)], 2, false);
    let chart = plot.mean_chart();
    assert_eq!(chart.caption, "Mean");
    assert_eq!(chart.legend, Some(LegendPosition::LowerRight));
    assert!(!chart.log_y);
    assert_eq!(chart.y_labels, LabelFormat::Plain);
    assert_eq!(chart.elements.len(), 2);
    assert_eq!(
        line(&chart.elements[0]),
        (Some("x[0]"), LineColor::Rgb(230, 25, 75), vec![(10, 1.0), (20, 2.0)])
    );
    assert_eq!(
        line(&chart.elements[1]),
        (Some("x[1]"), LineColor::Rgb(60, 180, 75), vec![(10, 2.0), (20, 3.0)])
    );
    assert_eq!(chart.y_range.low, v(1.0));
    assert_eq!(chart.y_range.high, v(3.0));
    assert_encompassed(&chart);
}

#[test]
fn scientific_notation_is_for_linear_axes() {
    let plot = plot_of(&[Some(1.0)], 1, true);
    assert_eq!(plot.mean_chart().y_labels, LabelFormat::Scientific);
    assert_eq!(plot.sqrt_eigenvalues_chart().y_labels, LabelFormat::PowerOfTen);
    assert_eq!(plot.coord_axis_scales_chart().y_labels, LabelFormat::PowerOfTen);
}

#[test]
fn axis_scales_have_no_legend() {
    let plot = plot_of(&[Some(1.0), Some(0.5)], 2, false);
    let chart = plot.sqrt_eigenvalues_chart();
    assert_eq!(chart.caption, "Distribution Axis Scales");
    assert_eq!(chart.legend, None);
    assert!(chart.log_y);
    assert_eq!(
        line(&chart.elements[1]),
        (None, LineColor::Rgb(60, 180, 75), vec![(10, 2.0), (20, 3.0)])
    );
    assert_encompassed(&chart);
}

#[test]
fn coordinate_scales_are_labelled_by_number() {
    let plot = plot_of(&[Some(1.0), Some(0.5)], 2, false);
    let chart = plot.coord_axis_scales_chart();
    assert_eq!(chart.caption, "Coord. Axis Standard Deviations (without sigma)");
    assert_eq!(chart.legend, Some(LegendPosition::LowerLeft));
    assert!(chart.log_y);
    assert_eq!(
        line(&chart.elements[1]),
        (Some("1"), LineColor::Rgb(60, 180, 75), vec![(10, 0.0), (20, 1.0)])
    );
    assert_encompassed(&chart);
}

#[test]
fn page_places_the_charts() {
    let plot = plot_of(&[Some(1.0), Some(0.5)], 2, false);
    let page = plot.page(&differences(&plot));
    assert_eq!(page.top_left.caption, "f - min(f), abs(f), Sigma, Axis Ratio");
    assert_eq!(page.top_right.caption, "Mean");
    assert_eq!(page.bottom_left.caption, "Distribution Axis Scales");
    assert_eq!(page.bottom_right.caption, "Coord. Axis Standard Deviations (without sigma)");
    assert_eq!((PLOT_WIDTH, PLOT_HEIGHT), (1200, 1200));
}

#[test]
fn page_depends_on_histories_and_notation() {
    let p = plot_of(&[None, Some(1.0), Some(0.5)], 2, true);
    let mut q = Plot::new(2, PlotOptions::new(77, true));
    for i in 0..3 {
        let data = p.data();
        let best = data.best_function_value[i];
        q.add_data_point(&DataPoint {
            function_evals: data.function_evals[i],
            best_function_value: if best.is_nan() {
                None
            } else {
                Some(same(f64::from_bits(best.to_bits())))
            },
            sigma: same(f64::from_bits(data.sigma[i].to_bits())),
            axis_ratio: same(f64::from_bits(data.axis_ratio[i].to_bits())),
            mean: (0..2).map(|d| data.mean_dimensions[d][i]).collect(),
            sqrt_eigenvalues: (0..2)
                .map(|d| same(f64::from_bits(data.sqrt_eigenvalues[d][i].to_bits())))
                .collect(),
            coord_axis_scales: (0..2)
                .map(|d| same(f64::from_bits(data.coord_axis_scales[d][i].to_bits())))
                .collect(),
        });
    }
    let first = format!("{:?}", p.page(&differences(&p)));
    assert_eq!(first, format!("{:?}", q.page(&differences(&q))));
    assert_eq!(first, format!("{:?}", p.page(&differences(&p))));
}

#[test]
fn palette_is_walked_and_repeats() {
    let palette: [(u8, u8, u8); 21] = [
        (230, 25, 75),
        (60, 180, 75),
        (255, 225, 25),
        (0, 130, 200),
        (245, 130, 48),
        (145, 30, 180),
        (70, 240, 240),
        (240, 50, 230),
        (210, 245, 60),
        (250, 190, 190),
        (0, 128, 128),
        (230, 190, 255),
        (170, 110, 40),
        (255, 250, 200),
        (128, 0, 0),
        (170, 255, 195),
        (128, 128, 0),
        (255, 215, 180),
        (0, 0, 128),
        (128, 128, 128),
        (0, 0, 0),
    ];
    let chart = plot_of(&[Some(1.0)], 45, false).mean_chart();
    assert_eq!(chart.elements.len(), 45);
    for (i, element) in chart.elements.iter().enumerate() {
        let (r, g, b) = palette[i % 21];
        assert_eq!(line(element).1, LineColor::Rgb(r, g, b));
        assert_eq!(line(element).0, Some(format!("x[{}]", i).as_str()));
    }
}

#[test]
fn numbers_are_written_in_decimal() {
    for n in [0usize, 7, 9, 10, 19, 100, 1234567890, usize::MAX] {
        assert_eq!(decimal_text(n), format!("{}", n));
        assert_eq!(mean_text(n), format!("x[{}]", n));
    }
}

#[test]
fn legend_line_runs_right() {
    assert_eq!(legend_line(5, 7), vec![(5, 7), (25, 7)]);
    assert_eq!(legend_line(-30, -1), vec![(-30, -1), (-10, -1)]);
    assert_eq!(legend_line(i32::MAX - 20, 0), vec![(i32::MAX - 20, 0), (i32::MAX, 0)]);
}

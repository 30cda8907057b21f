use cmaes_plotting::data::DataPoint;
use cmaes_plotting::plot::{Plot, PlotOptions};
use cmaes_plotting::value::{Offset, Value};

fn v(x: f64) -> Value {
    Value::from_bits(x.to_bits())
}

fn vs(xs: &[f64]) -> Vec<Value> {
    xs.iter().map(|x| v(*x)).collect()
}

fn offset(x: f64) -> Offset {
    Offset { value: v(x), raised: v(x + 0.5), lowered: v(x - 0.5) }
}

fn point(evals: usize, best: Option<f64>, scale: f64) -> DataPoint {
    DataPoint {
        function_evals: evals,
        best_function_value: best.map(offset),
        sigma: offset(scale),
        axis_ratio: offset(2.0 * scale),
        mean: vs(&[scale, -scale]),
        sqrt_eigenvalues: vec![offset(3.0 * scale), offset(scale)],
        coord_axis_scales: vec![offset(5.0 * scale), offset(4.0 * scale)],
    }
}

fn recorded() -> Plot {
    let mut plot = Plot::new(2, PlotOptions::new(100, false));
    plot.add_data_point(&point(0, None, 1.0));
    plot.add_data_point(&point(120, Some(7.0), 2.0));
    plot.add_data_point(&point(250, Some(-7.0), 4.0));
    plot
}

#[test]
fn options_hold_what_was_given() {
    let options = PlotOptions::new(13, true);
    assert_eq!(options.min_gap_evals, 13);
    assert!(options.scientific_notation);
    assert!(!PlotOptions::new(0, false).scientific_notation);
}

#[test]
fn new_plot_is_empty() {
    let plot = Plot::new(3, PlotOptions::new(10, false));
    assert!(plot.data().function_evals.is_empty());
    assert!(plot.data().best_function_value.is_empty());
    assert!(plot.data().sigma.is_empty());
    assert!(plot.data().axis_ratio.is_empty());
    assert_eq!(plot.data().mean_dimensions, vec![vec![], vec![], vec![]]);
    assert_eq!(plot.data().sqrt_eigenvalues.len(), 3);
    assert_eq!(plot.data().coord_axis_scales.len(), 3);
    assert_eq!(plot.get_next_data_point_evals(), 10);
}

#[test]
fn data_points_are_recorded() {
    let plot = recorded();
    let data = plot.data();
    assert_eq!(data.function_evals, vec![0, 120, 250]);
    assert!(data.best_function_value[0].is_nan());
    assert_eq!(data.best_function_value[1..], vs(&[7.5, -7.5])[..]);
    assert_eq!(data.sigma, vs(&[1.5, 2.5, 4.5]));
    assert_eq!(data.axis_ratio, vs(&[2.5, 4.5, 8.5]));
    assert_eq!(data.mean_dimensions, vec![vs(&[1.0, 2.0, 4.0]), vs(&[-1.0, -2.0, -4.0])]);
    assert_eq!(data.sqrt_eigenvalues, vec![vs(&[1.5, 2.5, 4.5]), vs(&[3.5, 6.5, 12.5])]);
    assert_eq!(data.coord_axis_scales, vec![vs(&[5.5, 10.5, 20.5]), vs(&[4.5, 8.5, 16.5])]);
}

#[test]
fn next_data_point_keeps_the_gap() {
    let mut plot = recorded();
    assert_eq!(plot.get_next_data_point_evals(), 350);
    plot.clear();
    assert_eq!(plot.get_next_data_point_evals(), 350);
}

#[test]
fn zero_gap_records_every_generation() {
    let mut plot = Plot::new(2, PlotOptions::new(0, false));
    assert_eq!(plot.get_next_data_point_evals(), 0);
    plot.add_data_point(&point(17, Some(1.0), 1.0));
    assert_eq!(plot.get_next_data_point_evals(), 17);
}

#[test]
fn clear_keeps_the_latest_point() {
    let mut plot = recorded();
    plot.clear();
    let data = plot.data();
    assert_eq!(data.function_evals, vec![250]);
    assert_eq!(data.best_function_value, vs(&[-7.5]));
    assert_eq!(data.sigma, vs(&[4.5]));
    assert_eq!(data.axis_ratio, vs(&[8.5]));
    assert_eq!(data.mean_dimensions, vec![vs(&[4.0]), vs(&[-4.0])]);
    assert_eq!(data.sqrt_eigenvalues, vec![vs(&[4.5]), vs(&[12.5])]);
    assert_eq!(data.coord_axis_scales, vec![vs(&[20.5]), vs(&[16.5])]);
}

#[test]
fn clear_keeps_a_single_point() {
    let mut plot = recorded();
    plot.clear();
    plot.clear();
    assert_eq!(plot.data().function_evals, vec![250]);
    assert_eq!(plot.data().mean_dimensions, vec![vs(&[4.0]), vs(&[-4.0])]);
}

#[test]
fn recording_goes_on_after_clear() {
    let mut plot = recorded();
    plot.clear();
    plot.add_data_point(&point(400, Some(1.0), 8.0));
    assert_eq!(plot.data().function_evals, vec![250, 400]);
    assert_eq!(plot.data().sigma, vs(&[4.5, 8.5]));
    assert_eq!(plot.get_next_data_point_evals(), 500);
}

#[test]
fn clear_forgets_what_came_before() {
    let latest = point(400, Some(1.0), 8.0);
    let mut long = recorded();
    long.add_data_point(&latest);
    long.clear();
    let mut fresh = Plot::new(2, PlotOptions::new(100, false));
    fresh.add_data_point(&latest);
    assert_eq!(long.data().function_evals, fresh.data().function_evals);
    assert_eq!(long.data().best_function_value, fresh.data().best_function_value);
    assert_eq!(long.data().sqrt_eigenvalues, fresh.data().sqrt_eigenvalues);
    assert_eq!(long.get_next_data_point_evals(), fresh.get_next_data_point_evals());
}

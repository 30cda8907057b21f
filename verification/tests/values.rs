use cmaes_plotting::order::sort_places;
use cmaes_plotting::range::{
    choose_margin, count, extremes, label_count, log_label_count, minimum, MAX_Y_LABELS,
};
use cmaes_plotting::value::{apply_offsets, Offset, Value};

fn v(x: f64) -> Value {
    Value::from_bits(x.to_bits())
}

fn vs(xs: &[f64]) -> Vec<Value> {
    xs.iter().map(|x| v(*x)).collect()
}

const SAMPLES: [f64; 14] = [
    f64::NAN,
    -f64::NAN,
    f64::INFINITY,
    f64::NEG_INFINITY,
    0.0,
    -0.0,
    1.0,
    -1.0,
    1.5,
    f64::MIN_POSITIVE,
    -f64::MIN_POSITIVE,
    f64::MAX,
    f64::MIN,
    5e-324,
];

#[test]
fn order_is_that_of_doubles() {
    for a in SAMPLES {
        assert_eq!(v(a).is_nan(), a.is_nan());
        assert_eq!(v(a).abs().to_bits(), a.abs().to_bits());
        for b in SAMPLES {
            assert_eq!(v(a).at_most(v(b)), a <= b, "{} {}", a, b);
            assert_eq!(v(a).equals(v(b)), a == b, "{} {}", a, b);
        }
    }
}

#[test]
fn bits_come_back() {
    assert_eq!(Value::from_bits(0x4009_21fb_5444_2d18).to_bits(), 0x4009_21fb_5444_2d18);
    assert_eq!(v(-2.5).to_bits(), (-2.5f64).to_bits());
    assert!(f64::from_bits(Value::undefined().to_bits()).is_nan());
}

#[test]
fn offset_moves_away_from_zero() {
    let offset = |x: f64| Offset { value: v(x), raised: v(x + 0.5), lowered: v(x - 0.5) };
    assert_eq!(offset(1.0).apply_offset(), v(1.5));
    assert_eq!(offset(0.0).apply_offset(), v(0.5));
    assert_eq!(offset(-0.0).apply_offset(), v(0.5));
    assert_eq!(offset(-1.0).apply_offset(), v(-1.5));
    let nan = Offset { value: v(f64::NAN), raised: v(1.0), lowered: v(2.0) };
    assert_eq!(nan.apply_offset(), v(2.0));
    assert_eq!(apply_offsets(&vec![offset(3.0), offset(-3.0)]), vs(&[3.5, -3.5]));
}

#[test]
fn sorting_is_stable_and_ascending() {
    assert_eq!(sort_places(&vs(&[3.0, 1.0, 2.0])), vec![1, 2, 0]);
    assert_eq!(sort_places(&vs(&[])), Vec::<usize>::new());
    assert_eq!(sort_places(&vs(&[0.0, -1.0, -0.0, 0.0])), vec![1, 0, 2, 3]);
    assert_eq!(sort_places(&vs(&[f64::NAN, 2.0, f64::NAN, f64::INFINITY, -5.0])), vec![
        4, 1, 3, 0, 2
    ]);
}

#[test]
fn minimum_is_the_first_smallest() {
    assert_eq!(minimum(&vs(&[3.0, 1.0, 2.0, 1.0])), 1);
    assert_eq!(minimum(&vs(&[7.0])), 0);
    assert_eq!(minimum(&vs(&[0.0, -0.0])), 0);
}

#[test]
fn minimum_skips_leading_undefined_values() {
    assert_eq!(minimum(&vs(&[f64::NAN, 5.0, 4.0, 6.0])), 2);
    assert_eq!(minimum(&vs(&[f64::NAN, f64::NAN, -5.0])), 2);
}

#[test]
fn minimum_ignores_undefined_values_anywhere() {
    assert_eq!(minimum(&vs(&[1.0, f64::NAN, 3.0])), 0);
    assert_eq!(minimum(&vs(&[4.0, f64::NAN, 3.0, 2.0, f64::NAN, 2.0])), 3);
    assert_eq!(minimum(&vs(&[1.0, f64::NAN])), 0);
}

#[test]
fn minimum_without_numbers_is_the_last_place() {
    assert_eq!(minimum(&vs(&[f64::NAN, f64::NAN])), 1);
    assert_eq!(minimum(&vs(&[f64::NAN])), 0);
}

#[test]
fn count_compares_as_doubles() {
    assert_eq!(count(&vs(&[0.0, 1.0, -0.0, f64::NAN, 0.0]), v(0.0)), 3);
    assert_eq!(count(&vs(&[f64::NAN]), v(f64::NAN)), 0);
    assert_eq!(count(&vs(&[]), v(1.0)), 0);
}

#[test]
fn extremes_ignore_undefined_values() {
    let found = extremes(&vs(&[f64::NAN, 2.0, -3.0, f64::NAN, 9.0, 4.0, f64::NAN]));
    assert_eq!(found.low, v(-3.0));
    assert_eq!(found.high, v(9.0));
}

#[test]
fn extremes_of_equal_values_are_first_and_last() {
    let found = extremes(&vs(&[0.0, -0.0]));
    assert_eq!(found.low, v(0.0));
    assert_eq!(found.high, v(-0.0));
}

#[test]
fn extremes_without_numbers_are_undefined() {
    let found = extremes(&vs(&[f64::NAN, f64::NAN]));
    assert!(found.low.is_nan());
    assert!(found.high.is_nan());
}

#[test]
fn extremes_encompass_every_number() {
    let values = vs(&SAMPLES);
    let found = extremes(&values);
    for value in values {
        if !value.is_nan() {
            assert!(found.low.at_most(value));
            assert!(value.at_most(found.high));
        }
    }
    assert_eq!(found.low, v(f64::NEG_INFINITY));
    assert_eq!(found.high, v(f64::INFINITY));
}

#[test]
fn log_labels_are_capped() {
    assert_eq!(log_label_count(0), 0);
    assert_eq!(log_label_count(7), 7);
    assert_eq!(log_label_count(26), 26);
    assert_eq!(log_label_count(27), 26);
    assert_eq!(log_label_count(usize::MAX), 26);
    assert_eq!(MAX_Y_LABELS, 26);
}

#[test]
fn linear_axes_have_all_labels() {
    assert_eq!(label_count(false, 0), 26);
    assert_eq!(label_count(false, 3), 26);
    assert_eq!(label_count(true, 3), 3);
    assert_eq!(label_count(true, 300), 26);
}

#[test]
fn offset_prevents_zero() {
    let offset = |x: f64| Offset { value: v(x), raised: v(x + 1e-20), lowered: v(x - 1e-20) };
    assert_eq!(offset(0.0).apply_offset(), v(1e-20));
    assert_eq!(offset(-0.0).apply_offset(), v(1e-20));
    assert_eq!(offset(-1e-30).apply_offset(), v(-1e-30 - 1e-20));
    let range = extremes(&vec![offset(0.0).apply_offset(), offset(2.0).apply_offset()]);
    assert!(!range.low.at_most(v(0.0)));
}

#[test]
fn axis_ratio_operands_are_first_and_last_in_order() {
    let scales = vs(&[2.0, 8.0, 0.5, 8.0, 0.5]);
    let order = sort_places(&scales);
    assert_eq!(order, vec![2, 4, 0, 1, 3]);
    let found = extremes(&scales);
    assert_eq!(found.low, scales[order[0]]);
    assert_eq!(found.high, scales[order[4]]);
}

#[test]
fn more_values_never_shrink_the_range() {
    let few = extremes(&vs(&[3.0, 2.0, 5.0]));
    let more = extremes(&vs(&[5.0, f64::NAN, 7.0, 2.0, 0.5, 3.0]));
    assert!(more.low.at_most(few.low));
    assert!(few.high.at_most(more.high));
    assert!(log_label_count(3) <= log_label_count(4));
    assert!(log_label_count(30) <= log_label_count(40));
}

#[test]
fn order_and_repetition_do_not_matter_for_the_range() {
    let a = extremes(&vs(&[3.0, 2.0, 5.0, f64::NAN]));
    let b = extremes(&vs(&[5.0, 5.0, 2.0, 3.0, 2.0]));
    assert_eq!(a, b);
}

#[test]
fn applied_offsets_keep_order_and_sign() {
    let offset = |x: f64| Offset { value: v(x), raised: v(x + 0.5), lowered: v(x - 0.5) };
    let ascending = [-4.0, -0.25, -0.0, 0.0, 0.25, 1.0, 9.0];
    for pair in ascending.windows(2) {
        assert!(offset(pair[0]).apply_offset().at_most(offset(pair[1]).apply_offset()));
    }
    for x in [0.25, 1.0, 9.0] {
        let moved = f64::from_bits(offset(x).apply_offset().to_bits());
        assert_eq!(offset(-x).apply_offset(), v(-moved));
    }
}

#[test]
fn margin_falls_back_to_the_upper_end() {
    assert_eq!(choose_margin(v(0.3), v(7.0)), v(0.3));
    assert_eq!(choose_margin(v(0.0), v(7.0)), v(7.0));
    assert_eq!(choose_margin(v(-0.0), v(7.0)), v(7.0));
    assert!(choose_margin(v(f64::NAN), v(7.0)).is_nan());
}

#[test]
fn margin_of_a_negative_constant_is_above_zero() {
    let (min, max) = (-20.0f64, -20.0f64);
    let margin = choose_margin(v((max - min) * 0.15), v(max * 0.15));
    assert_eq!(margin, v(3.0));
    let margin = f64::from_bits(margin.to_bits());
    assert!(min - margin < -20.0 && -20.0 < max + margin);
}

#[test]
fn margin_of_zero_is_above_zero() {
    assert_eq!(choose_margin(v(0.0), v(0.0)), v(1.0));
    assert_eq!(choose_margin(v(0.0), v(-0.0)), v(1.0));
}

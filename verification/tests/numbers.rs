use wt_clipper::capture::gpu_screen_recorder::probed_seconds;
use wt_clipper::desktop::editor::{format_seconds_arg, format_time_label};
use wt_clipper::doctor::format_bytes;
use wt_clipper::number::{
    add_up, clamp_single, nearest_thousandths, take_away, text_with_tenth, text_with_thousandths,
    to_nearest_whole, Double, Single,
};
use wt_clipper::ui::app::human_bytes;

fn double(value: f64) -> Double {
    Double { bits: value.to_bits() }
}

fn single(value: f32) -> Single {
    Single { bits: value.to_bits() }
}

/// Numbers of every size, and those around which rounding turns.
fn samples() -> Vec<f64> {
    let mut values = vec![
        0.0,
        f64::MIN_POSITIVE,
        5e-324,
        0.0004,
        0.0005,
        0.000_500_000_000_000_000_1,
        0.0625,
        0.1875,
        0.3125,
        0.5,
        0.999_5,
        1.0,
        1.000_5,
        1.5,
        2.5,
        59.5,
        3599.5,
        4_503_599_627_370_495.5,
        4_503_599_627_370_496.0,
        9_007_199_254_740_991.0,
        9_007_199_254_740_993.0,
        1.8e19,
        1.844_674_407_370_955_2e19,
        1e21,
        1e300,
        f64::MAX,
    ];
    let mut state: u64 = 0x1234_5678_9abc_def1;
    for _ in 0..400 {
        state ^= state << 13;
        state ^= state >> 7;
        state ^= state << 17;
        let exponent = 1023 - 60 + state % 130;
        values.push(f64::from_bits((exponent << 52) | (state >> 12)));
    }
    values
}

#[test]
fn numbers_are_written_to_the_thousandth() {
    for value in samples() {
        assert_eq!(text_with_thousandths(double(value)), format!("{value:.3}"));
    }
    assert_eq!(format_seconds_arg(double(0.0005)), "0.001");
    assert_eq!(format_seconds_arg(double(0.0625)), "0.062");
    assert_eq!(format_seconds_arg(double(0.1875)), "0.188");
    assert_eq!(format_seconds_arg(double(f64::INFINITY)), "inf");
    assert_eq!(format_seconds_arg(double(f64::NAN)), "0.000");
    assert_eq!(format_seconds_arg(double(f64::NEG_INFINITY)), "0.000");
    assert_eq!(format_seconds_arg(double(-3.0)), "0.000");
}

#[test]
fn numbers_are_rounded_to_whole_ones() {
    for value in samples() {
        assert_eq!(to_nearest_whole(double(value)), value.round() as u64);
        assert_eq!(to_nearest_whole(double(-value)), 0);
    }
    assert_eq!(to_nearest_whole(double(f64::INFINITY)), u64::MAX);
    assert_eq!(to_nearest_whole(double(f64::NAN)), 0);
    assert_eq!(format_time_label(double(59.5)), "01-00");
    assert_eq!(format_time_label(double(f64::INFINITY)), "5124095576030431-00-15");
}

#[test]
fn sums_and_differences_are_those_of_double_precision() {
    let values = samples();
    for a in &values {
        for b in &values {
            assert_eq!(add_up(double(*a), double(*b)), double(a + b));
            assert_eq!(take_away(double(*a), double(*b)), double(a - b));
            assert_eq!(add_up(double(-a), double(*b)), double(0.0 + (b - a)));
        }
    }
}

#[test]
fn numbers_are_ordered() {
    let values = samples();
    for a in &values {
        for b in &values {
            assert_eq!(double(*a).less(double(*b)), a < b);
            assert_eq!(double(-a).less(double(*b)), -a < *b);
            assert_eq!(double(-a).less(double(-b)), -a < -b);
        }
        assert!(double(*a).less(double(f64::INFINITY)));
        assert!(!double(*a).less(double(f64::NAN)));
        assert!(!double(f64::NAN).less(double(*a)));
    }
    assert!(single(0.0).same_as(single(-0.0)));
    assert!(!single(f32::NAN).same_as(single(f32::NAN)));
    assert!(!single(1.0).same_as(single(1.000_000_1)));
    assert!(single(f32::INFINITY).same_as(single(f32::INFINITY)));
}

#[test]
fn thousandths_are_counted_in_single_precision() {
    let low = single(0.1);
    let high = single(10.0);
    let mut bits: u32 = 0.05_f32.to_bits();
    while bits < 20.0_f32.to_bits() {
        let value = f32::from_bits(bits);
        let kept = value.clamp(0.1, 10.0);
        assert_eq!(clamp_single(single(value), low, high), single(kept));
        assert_eq!(nearest_thousandths(single(kept)), (kept * 1000.0).round() as u64);
        bits += 1009;
    }
    assert_eq!(clamp_single(single(-5.0), low, high), low);
}

#[test]
fn sizes_are_written_to_the_tenth() {
    let sizes: [u64; 12] = [
        0,
        1023,
        1024,
        1_075_200,
        1_048_576,
        52_428_800,
        1_073_741_823,
        1_073_741_824,
        1_342_177_280,
        9_007_199_254_740_993,
        u64::MAX - 1024,
        u64::MAX,
    ];
    for size in sizes {
        assert_eq!(text_with_tenth(size, 1024), format!("{:.1}", size as f64 / 1024.0));
        assert_eq!(text_with_tenth(size, 1 << 30), format!("{:.1}", size as f64 / 1_073_741_824.0));
    }
    assert_eq!(format_bytes(0), "0.0 MiB");
    assert_eq!(format_bytes(52_428_800), "50.0 MiB");
    assert_eq!(format_bytes(1_342_177_280), "1.2 GiB");
    assert_eq!(human_bytes(1023), "1023 B");
    assert_eq!(human_bytes(1_536), "1.5 KB");
    assert_eq!(human_bytes(1_048_576), "1.0 MB");
    assert_eq!(human_bytes(3_221_225_472), "3.0 GB");
}

#[test]
fn a_probed_length_is_at_least_one_second() {
    assert_eq!(probed_seconds(double(9.4)), Some(9));
    assert_eq!(probed_seconds(double(0.1)), Some(1));
    assert_eq!(probed_seconds(double(2.5)), Some(3));
    assert_eq!(probed_seconds(double(0.0)), None);
    assert_eq!(probed_seconds(double(-2.0)), None);
    assert_eq!(probed_seconds(double(f64::NAN)), None);
    assert_eq!(probed_seconds(double(f64::INFINITY)), None);
}

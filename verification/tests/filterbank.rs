use mfcc::filterbank::{accumulate, filter_index, NFILTERS};

fn plus(a: i64, b: i64) -> i64 {
    a + b
}

#[test]
fn bins_inside_the_scale_keep_their_filter() {
    assert_eq!(filter_index(0), 0);
    assert_eq!(filter_index(17), 17);
    assert_eq!(filter_index(39), 39);
}

#[test]
fn bin_on_the_upper_edge_counts_to_the_last_filter() {
    assert_eq!(NFILTERS, 40);
    assert_eq!(filter_index(40), 39);
}

#[test]
fn spectrum_without_bins_leaves_every_filter_at_zero() {
    let filters = accumulate(0, 7, |_: usize| 0, |_: usize, _: usize| 1, |_: usize, _: usize| 1, plus);
    assert_eq!(filters, vec![7; 40]);
}

#[test]
fn constant_component_takes_no_part() {
    let filters = accumulate(
        1,
        0,
        |bin: usize| panic!("bin {} was placed", bin),
        |bin: usize, _: usize| panic!("bin {} was asked for its falling share", bin),
        |bin: usize, _: usize| panic!("bin {} was asked for its rising share", bin),
        plus,
    );
    assert_eq!(filters, vec![0; 40]);

    let filters = accumulate(
        2,
        0,
        |bin: usize| {
            assert_eq!(bin, 1);
            3
        },
        |bin: usize, _: usize| {
            assert_eq!(bin, 1);
            10
        },
        |bin: usize, _: usize| {
            assert_eq!(bin, 1);
            20
        },
        plus,
    );
    let mut expected = vec![0; 40];
    expected[2] = 10;
    expected[3] = 20;
    assert_eq!(filters, expected);
}

#[test]
fn each_bin_feeds_its_own_filter_and_the_one_below() {
    let positions = [0, 5, 5, 6, 0];
    let filters = accumulate(
        5,
        0,
        |bin: usize| positions[bin],
        |bin: usize, index: usize| (1000 * bin + 10 * index) as i64,
        |bin: usize, index: usize| (100_000 * bin + index) as i64,
        plus,
    );
    let mut expected = vec![0; 40];
    // bins 1 and 2 land in filter 5, bin 3 in filter 6, bin 4 in filter 0
    expected[4] = 1050 + 2050;
    expected[5] = 100_005 + 200_005 + 3060;
    expected[6] = 300_006;
    expected[0] = 400_000;
    assert_eq!(filters, expected);
}

#[test]
fn bin_in_the_first_filter_has_no_falling_share() {
    let filters = accumulate(
        3,
        1,
        |_: usize| 0,
        |_: usize, index: usize| panic!("falling share asked below filter {}", index),
        |bin: usize, _: usize| bin as i64,
        plus,
    );
    let mut expected = vec![1; 40];
    expected[0] = 1 + 1 + 2;
    assert_eq!(filters, expected);
}

#[test]
fn bin_on_the_upper_edge_feeds_the_last_two_filters() {
    let filters = accumulate(
        2,
        0,
        |_: usize| 40,
        |_: usize, index: usize| index as i64,
        |_: usize, index: usize| 100 * index as i64,
        plus,
    );
    let mut expected = vec![0; 40];
    expected[38] = 39;
    expected[39] = 3900;
    assert_eq!(filters, expected);
}

#[test]
fn shares_from_the_linear_ramps_are_added_as_they_are() {
    // A scale of 40 filters with edges 50 mel apart and ramps 100 mel long.
    let filter_length = 100.0_f64;
    let maxmel = 2000.0_f64;
    let mel = 370.0_f64;
    let power = 8.0_f64;
    let ramp = |filter: usize| (mel - filter as f64 * filter_length / 2.0) / filter_length;
    let filters = accumulate(
        2,
        0.0,
        |_: usize| (mel / maxmel * 40.0).floor() as usize,
        |_: usize, index: usize| (1.0 - ramp(index - 1)) * power,
        |_: usize, index: usize| ramp(index) * power,
        |a: f64, b: f64| a + b,
    );
    assert!((filters[6] - 2.4).abs() < 1e-12);
    assert!((filters[7] - 1.6).abs() < 1e-12);
    assert!((filters[6] + filters[7] - 0.5 * power).abs() < 1e-12);
    for (index, energy) in filters.iter().enumerate() {
        if index != 6 && index != 7 {
            assert_eq!(*energy, 0.0);
        }
    }
}

#[test]
fn weights_outside_the_unit_range_are_not_clamped() {
    let filters = accumulate(
        2,
        1.0,
        |_: usize| 3,
        |_: usize, _: usize| -1.5,
        |_: usize, _: usize| 2.5,
        |a: f64, b: f64| a + b,
    );
    assert_eq!(filters[2], -0.5);
    assert_eq!(filters[3], 3.5);
    assert_eq!(filters[4], 1.0);
}

#[test]
fn passes_over_the_same_spectrum_agree() {
    let run = || {
        accumulate(
            30,
            0,
            |bin: usize| (bin * 4) / 3,
            |bin: usize, index: usize| (bin * index) as i64,
            |bin: usize, index: usize| (bin + index) as i64,
            plus,
        )
    };
    assert_eq!(run(), run());
}

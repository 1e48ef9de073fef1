use ngs::histogram::Histogram;
use ngs::histogram::HistogramError;
use ngs::histogram::Ratio;

fn filled(capacity: usize, values: &[usize]) -> Histogram {
    let mut histogram = Histogram::zero_based_with_capacity(capacity);
    for value in values {
        histogram.increment(*value).unwrap();
    }
    histogram
}

#[test]
fn test_new_histogram_is_empty() {
    let histogram = Histogram::zero_based_with_capacity(5);
    assert_eq!(histogram.capacity(), 5);
    assert_eq!(histogram.total(), 0);
    for bin in 0..8 {
        assert_eq!(histogram.get(bin), 0);
    }
    assert_eq!(histogram.range_start(), None);
    assert_eq!(histogram.range_stop(), None);
}

#[test]
fn test_empty_histogram_has_no_mean_and_no_median() {
    let histogram = Histogram::zero_based_with_capacity(5);
    assert_eq!(histogram.mean(), None);
    assert_eq!(histogram.median(), None);
    assert_eq!(histogram.median_over_mean(), None);
    let none = Histogram::zero_based_with_capacity(0);
    assert_eq!(none.mean(), None);
    assert_eq!(none.median(), None);
}

#[test]
fn test_increment_counts_in_the_bin_of_the_value() {
    let mut histogram = Histogram::zero_based_with_capacity(5);
    assert_eq!(histogram.increment(2), Ok(()));
    assert_eq!(histogram.increment(2), Ok(()));
    assert_eq!(histogram.increment(4), Ok(()));
    assert_eq!(histogram.get(2), 2);
    assert_eq!(histogram.get(4), 1);
    assert_eq!(histogram.get(0), 0);
    assert_eq!(histogram.total(), 3);
}

#[test]
fn test_increment_at_or_beyond_capacity_is_out_of_range() {
    let mut histogram = filled(5, &[1, 3]);
    assert_eq!(histogram.increment(5), Err(HistogramError::BinOutOfRange));
    assert_eq!(histogram.increment(6), Err(HistogramError::BinOutOfRange));
    assert_eq!(
        histogram.increment(usize::MAX),
        Err(HistogramError::BinOutOfRange)
    );
    assert_eq!(histogram.total(), 2);
    assert_eq!(histogram.get(1), 1);
    assert_eq!(histogram.get(3), 1);
    assert_eq!(histogram.get(5), 0);
    assert_eq!(histogram.range_start(), Some(1));
    assert_eq!(histogram.range_stop(), Some(3));
    let mut none = Histogram::zero_based_with_capacity(0);
    assert_eq!(none.increment(0), Err(HistogramError::BinOutOfRange));
}

#[test]
fn test_sum_of_counts_is_the_number_of_successful_increments() {
    let mut histogram = Histogram::zero_based_with_capacity(5);
    let mut successes = 0;
    for value in [1usize, 1, 3, 7, 2, 9, 0, 5, 4] {
        if histogram.increment(value).is_ok() {
            successes += 1;
        }
    }
    assert_eq!(successes, 6);
    assert_eq!(histogram.total(), 6);
    let sum: usize = (0..5).map(|bin| histogram.get(bin)).sum();
    assert_eq!(sum, 6);
}

#[test]
fn test_range_is_the_span_of_touched_bins() {
    let mut histogram = Histogram::zero_based_with_capacity(10);
    histogram.increment(4).unwrap();
    assert_eq!(histogram.range_start(), Some(4));
    assert_eq!(histogram.range_stop(), Some(4));
    histogram.increment(7).unwrap();
    histogram.increment(2).unwrap();
    histogram.increment(5).unwrap();
    assert_eq!(histogram.range_start(), Some(2));
    assert_eq!(histogram.range_stop(), Some(7));
}

#[test]
fn test_mean_is_weighted_sum_over_count() {
    let histogram = filled(5, &[1, 1, 3]);
    assert_eq!(
        histogram.mean(),
        Some(Ratio {
            numerator: 5,
            denominator: 3
        })
    );
    let zeros = filled(5, &[0, 0]);
    assert_eq!(
        zeros.mean(),
        Some(Ratio {
            numerator: 0,
            denominator: 2
        })
    );
}

#[test]
fn test_median_of_an_odd_number_is_the_middle_one() {
    assert_eq!(filled(5, &[1, 1, 3]).median(), Some(1));
    assert_eq!(filled(5, &[4, 0, 2]).median(), Some(2));
    assert_eq!(filled(5, &[3]).median(), Some(3));
}

#[test]
fn test_median_of_an_even_number_is_the_lower_middle_one() {
    assert_eq!(filled(5, &[1, 2, 3, 4]).median(), Some(2));
    assert_eq!(filled(9, &[0, 0, 5, 5]).median(), Some(0));
    assert_eq!(filled(9, &[8, 2]).median(), Some(2));
    assert_eq!(filled(9, &[7, 7]).median(), Some(7));
}

#[test]
fn test_median_over_mean_of_one_bin_is_one() {
    let histogram = filled(5, &[3, 3, 3, 3]);
    let ratio = histogram.median_over_mean().unwrap();
    assert_eq!(
        ratio,
        Ratio {
            numerator: 12,
            denominator: 12
        }
    );
    assert_eq!(ratio.numerator as f64 / ratio.denominator as f64, 1.0);
}

#[test]
fn test_median_over_mean_is_undefined_for_a_mean_of_zero() {
    let histogram = filled(5, &[0, 0, 0]);
    assert_eq!(histogram.median(), Some(0));
    assert_eq!(histogram.median_over_mean(), None);
}

#[test]
fn test_median_over_mean_is_median_times_count_over_weighted_sum() {
    let histogram = filled(6, &[1, 2, 5]);
    assert_eq!(
        histogram.median_over_mean(),
        Some(Ratio {
            numerator: 6,
            denominator: 8
        })
    );
}

#[test]
fn test_clone_keeps_the_counts() {
    let histogram = filled(4, &[0, 3, 3]);
    let copy = histogram.clone();
    assert_eq!(copy.capacity(), 4);
    assert_eq!(copy.total(), 3);
    assert_eq!(copy.get(0), 1);
    assert_eq!(copy.get(3), 2);
    assert_eq!(copy.range_start(), Some(0));
    assert_eq!(copy.range_stop(), Some(3));
}

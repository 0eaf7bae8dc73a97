use stats_helper::stats::{get_frequencies, median_pick, sort_values, MedianPick};

fn bits(values: &[f64]) -> Vec<u64> {
    values.iter().map(|v| v.to_bits()).collect()
}

#[test]
fn sort_matches_float_order() {
    let data = bits(&[-1.0, 2.0, -3.0, 0.5, 0.0]);
    let sorted = sort_values(&data);
    assert_eq!(sorted, bits(&[-3.0, -1.0, 0.0, 0.5, 2.0]));

    let mut by_std: Vec<f64> = vec![-1.0, 2.0, -3.0, 0.5, 0.0];
    by_std.sort_by(|a, b| a.partial_cmp(b).unwrap());
    let by_std_bits: Vec<u64> = by_std.iter().map(|v| v.to_bits()).collect();
    assert_eq!(sorted, by_std_bits);
}

#[test]
fn sort_keeps_duplicates() {
    let data = bits(&[2.0, 1.0, 2.0, 1.0]);
    assert_eq!(sort_values(&data), bits(&[1.0, 1.0, 2.0, 2.0]));
}

#[test]
fn median_of_even_count_is_the_middle_pair() {
    let sorted = sort_values(&bits(&[1.0, 2.0, 3.0, 4.0]));
    let pick = median_pick(&sorted);
    assert_eq!(pick, MedianPick::Pair(2.0f64.to_bits(), 3.0f64.to_bits()));
    if let MedianPick::Pair(a, b) = pick {
        let median = (f64::from_bits(a) + f64::from_bits(b)) / 2.0;
        assert_eq!(median, 2.5);
    }
}

#[test]
fn median_of_odd_count_is_the_middle_element() {
    let sorted = sort_values(&bits(&[3.0, 1.0, 2.0]));
    assert_eq!(median_pick(&sorted), MedianPick::Single(2.0f64.to_bits()));
}

#[test]
fn median_of_empty_sample_is_empty() {
    assert_eq!(median_pick(&Vec::new()), MedianPick::Empty);
}

#[test]
fn frequencies_group_by_exact_bits() {
    let sorted = sort_values(&bits(&[1.0, 2.0, 1.0]));
    let groups = get_frequencies(&sorted);
    assert_eq!(groups, vec![(1.0f64.to_bits(), 2), (2.0f64.to_bits(), 1)]);
}

#[test]
fn frequencies_never_merge_bit_distinct_values() {
    let near: f64 = 0.1 + 0.2; // not the same bit pattern as 0.3
    assert_ne!(near.to_bits(), 0.3f64.to_bits());
    let sorted = sort_values(&bits(&[near, 0.3, 0.3]));
    let groups = get_frequencies(&sorted);
    assert_eq!(groups, vec![(0.3f64.to_bits(), 2), (near.to_bits(), 1)]);
}

#[test]
fn constant_sample_reads_off_the_one_value() {
    let data = bits(&[2.0, 2.0, 2.0, 2.0]);
    let sorted = sort_values(&data);
    assert_eq!(sorted, data);
    assert_eq!(get_frequencies(&sorted), vec![(2.0f64.to_bits(), 4)]);
    assert_eq!(
        median_pick(&sorted),
        MedianPick::Pair(2.0f64.to_bits(), 2.0f64.to_bits())
    );
    let values: Vec<f64> = sorted.iter().map(|b| f64::from_bits(*b)).collect();
    let mean = values.iter().sum::<f64>() / values.len() as f64;
    assert_eq!(mean, 2.0);
    let variance = values.iter().map(|v| (v - mean) * (v - mean)).sum::<f64>() / values.len() as f64;
    assert_eq!(variance, 0.0);
    assert_eq!(variance.sqrt(), 0.0);
}

#[test]
fn recomputation_is_bit_identical() {
    let data = bits(&[1.0, 0.1, -2.5, 0.1]);
    let first = sort_values(&data);
    let second = sort_values(&data);
    assert_eq!(first, second);
    assert_eq!(get_frequencies(&first), get_frequencies(&second));
    assert_eq!(median_pick(&first), median_pick(&second));
}

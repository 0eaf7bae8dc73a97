use stats_helper::series::{build_series, sort_points, DisplayOptions, PlotPoint, XAxis, YAxis};

fn bits(values: &[f64]) -> Vec<u64> {
    values.iter().map(|v| v.to_bits()).collect()
}

fn nat_bits_for(n: usize) -> Vec<u64> {
    (0..=n).map(|k| (k as f64).to_bits()).collect()
}

fn z_bits_for(values: &[f64]) -> Vec<u64> {
    let n = values.len() as f64;
    let mean = values.iter().sum::<f64>() / n;
    let variance = values.iter().map(|v| (v - mean) * (v - mean)).sum::<f64>() / n;
    let sd = variance.sqrt();
    values.iter().map(|v| ((v - mean) / sd).to_bits()).collect()
}

fn point(x: f64, y: f64) -> PlotPoint {
    PlotPoint { x: x.to_bits(), y: y.to_bits() }
}

fn opts(x_axis: XAxis, y_axis: YAxis) -> DisplayOptions {
    DisplayOptions { is_sample: false, x_axis, y_axis }
}

#[test]
fn index_mode_keeps_entry_order() {
    let values = [5.0, 3.0, 9.0];
    let data = bits(&values);
    let series = build_series(
        &data,
        &nat_bits_for(3),
        &z_bits_for(&values),
        &opts(XAxis::Index, YAxis::Value),
    );
    assert_eq!(series, vec![point(0.0, 5.0), point(1.0, 3.0), point(2.0, 9.0)]);
}

#[test]
fn index_frequency_mode_yields_no_points() {
    let values = [5.0, 3.0, 9.0];
    let data = bits(&values);
    let series = build_series(
        &data,
        &nat_bits_for(3),
        &z_bits_for(&values),
        &opts(XAxis::Index, YAxis::Frequency),
    );
    assert!(series.is_empty());
}

#[test]
fn z_score_mode_sorts_ascending_by_z() {
    let values = [3.0, 1.0, 2.0];
    let data = bits(&values);
    let series = build_series(
        &data,
        &nat_bits_for(3),
        &z_bits_for(&values),
        &opts(XAxis::ZScore, YAxis::Value),
    );
    // mean 2, population standard deviation sqrt(2/3) ~ 0.8165
    let sd = (2.0f64 / 3.0).sqrt();
    let z1 = (1.0 - 2.0) / sd;
    let z3 = (3.0 - 2.0) / sd;
    assert_eq!(series, vec![point(z1, 1.0), point(0.0, 2.0), point(z3, 3.0)]);
    assert!((f64::from_bits(series[0].x) + 1.224744871391589).abs() < 1e-12);
    assert!((f64::from_bits(series[2].x) - 1.224744871391589).abs() < 1e-12);
}

#[test]
fn z_score_frequency_mode_counts_distinct_values() {
    let values = [1.0, 1.0, 2.0];
    let data = bits(&values);
    let series = build_series(
        &data,
        &nat_bits_for(3),
        &z_bits_for(&values),
        &opts(XAxis::ZScore, YAxis::Frequency),
    );
    let zb = z_bits_for(&values);
    assert_eq!(series.len(), 2);
    assert_eq!(series[0], PlotPoint { x: zb[0], y: 2.0f64.to_bits() });
    assert_eq!(series[1], PlotPoint { x: zb[2], y: 1.0f64.to_bits() });
}

#[test]
fn value_frequency_mode_sorts_by_value() {
    let values = [2.0, 1.0, 1.0];
    let data = bits(&values);
    let series = build_series(
        &data,
        &nat_bits_for(3),
        &z_bits_for(&values),
        &opts(XAxis::Value, YAxis::Frequency),
    );
    assert_eq!(series, vec![point(1.0, 2.0), point(2.0, 1.0)]);
}

#[test]
fn value_mode_sorts_by_value() {
    let values = [3.0, 1.0, 2.0];
    let data = bits(&values);
    let series = build_series(
        &data,
        &nat_bits_for(3),
        &z_bits_for(&values),
        &opts(XAxis::Value, YAxis::Value),
    );
    assert_eq!(series, vec![point(1.0, 1.0), point(2.0, 2.0), point(3.0, 3.0)]);
}

#[test]
fn sorting_points_is_stable_on_equal_x() {
    let pts = vec![point(1.0, 10.0), point(1.0, 20.0), point(0.5, 0.0)];
    let sorted = sort_points(&pts);
    assert_eq!(sorted, vec![point(0.5, 0.0), point(1.0, 10.0), point(1.0, 20.0)]);
}

#[test]
fn negative_values_sort_below_positive_ones() {
    let pts = vec![point(0.25, 1.0), point(-3.0, 2.0), point(-0.5, 3.0)];
    let sorted = sort_points(&pts);
    assert_eq!(sorted, vec![point(-3.0, 2.0), point(-0.5, 3.0), point(0.25, 1.0)]);
}

#[test]
fn rebuilding_the_series_is_bit_identical() {
    let values = [1.0, 0.1, -2.5, 0.1];
    let data = bits(&values);
    let nb = nat_bits_for(4);
    let zb = z_bits_for(&values);
    let o = opts(XAxis::ZScore, YAxis::Frequency);
    assert_eq!(build_series(&data, &nb, &zb, &o), build_series(&data, &nb, &zb, &o));
}

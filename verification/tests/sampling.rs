use textgraph::sampling::keep_last;
use textgraph::sampling::resample;
use textgraph::sampling::scale;
use textgraph::sampling::series_max;
use textgraph::sampling::series_min;

#[test]
fn keep_last_retains_tail() {
    let v: Vec<i64> = vec![1, 2, 3, 4, 5];
    assert_eq!(keep_last(&v, 2), vec![4, 5]);
}

#[test]
fn keep_last_short_series_unchanged() {
    let v: Vec<i64> = vec![1, 2, 3];
    assert_eq!(keep_last(&v, 5), vec![1, 2, 3]);
    assert_eq!(keep_last(&v, 3), vec![1, 2, 3]);
}

#[test]
fn keep_last_zero_empties() {
    let v: Vec<i64> = vec![1, 2, 3];
    assert_eq!(keep_last(&v, 0), Vec::<i64>::new());
}

#[test]
fn keep_last_is_idempotent() {
    let v: Vec<i64> = vec![9, 8, 7, 6, 5, 4];
    let once = keep_last(&v, 3);
    let twice = keep_last(&once, 3);
    assert_eq!(once, twice);
}

#[test]
fn resample_selects_nearest_indices() {
    let v: Vec<i64> = vec![10, 11, 12, 13, 14, 15, 16, 17, 18, 19];
    // floor(i * 10 / 5) picks indices 0, 2, 4, 6, 8.
    assert_eq!(resample(&v, 5), vec![10, 12, 14, 16, 18]);
}

#[test]
fn resample_exact_length_is_identity() {
    let v: Vec<i64> = vec![3, 1, 4, 1, 5];
    assert_eq!(resample(&v, 5), vec![3, 1, 4, 1, 5]);
}

#[test]
fn resample_shorter_series_passes_through() {
    let v: Vec<i64> = vec![3, 1, 4];
    assert_eq!(resample(&v, 8), vec![3, 1, 4]);
}

#[test]
fn resample_uneven_ratio() {
    let v: Vec<i64> = vec![0, 1, 2, 3, 4, 5, 6];
    // floor(i * 7 / 3) picks indices 0, 2, 4.
    assert_eq!(resample(&v, 3), vec![0, 2, 4]);
}

#[test]
fn scale_maps_min_to_zero_and_max_to_top() {
    let v: Vec<i64> = vec![7, 9, 8, 7, 9];
    let s = scale(&v, 7, 9, 5);
    assert_eq!(s[0], 0);
    assert_eq!(s[1], 4);
    assert_eq!(s[3], 0);
    assert_eq!(s[4], 4);
}

#[test]
fn scale_rounds_half_away_from_zero() {
    // (1 - 0) * (2 - 1) / (2 - 0) = 0.5, which rounds up to 1.
    let v: Vec<i64> = vec![0, 1, 2];
    assert_eq!(scale(&v, 0, 2, 2), vec![0, 1, 1]);
}

#[test]
fn scale_exact_formula() {
    let v: Vec<i64> = vec![0, 1, 2, 3];
    // scale factor (4-1)/(3-0) = 1
    assert_eq!(scale(&v, 0, 3, 4), vec![0, 1, 2, 3]);
}

#[test]
fn scale_constant_series_hits_middle_row() {
    let v: Vec<i64> = vec![5, 5, 5];
    assert_eq!(scale(&v, 5, 5, 5), vec![2, 2, 2]);
    assert_eq!(scale(&v, 5, 5, 4), vec![1, 1, 1]);
}

#[test]
fn series_min_max_find_extremes() {
    let v: Vec<i64> = vec![3, -7, 12, 0];
    assert_eq!(series_min(&v), -7);
    assert_eq!(series_max(&v), 12);
    let one: Vec<i64> = vec![42];
    assert_eq!(series_min(&one), 42);
    assert_eq!(series_max(&one), 42);
}

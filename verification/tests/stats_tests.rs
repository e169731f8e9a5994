use exercises::stats::{count_occurrences, mean_ratio, median, mode, sorted_copy, sum};
use exercises::StatsError;

#[test]
fn sum_of_list() {
    let v: Vec<i32> = vec![6, 3, 4, 0, 2, 1, 6, 2];
    assert_eq!(sum(&v), 24);
}

#[test]
fn sum_of_empty_list_is_zero() {
    let v: Vec<i32> = Vec::new();
    assert_eq!(sum(&v), 0);
}

#[test]
fn sum_handles_extremes_exactly() {
    let v: Vec<i32> = vec![i32::MAX, i32::MAX, i32::MIN];
    assert_eq!(sum(&v), 2 * (i32::MAX as i128) + (i32::MIN as i128));
}

#[test]
fn mean_of_example_list() {
    let v: Vec<i32> = vec![6, 3, 4, 0, 2, 1, 6, 2];
    let (s, n) = mean_ratio(&v).unwrap();
    assert_eq!(s, 24);
    assert_eq!(n, 8);
    let mean = s as f32 / n as f32;
    assert_eq!(mean, 3.0);
}

#[test]
fn mean_equals_sum_divided_by_len() {
    let samples: Vec<Vec<i32>> = vec![
        vec![1],
        vec![1, 2],
        vec![-5, 5],
        vec![7, 7, 7, 7],
        vec![10, -3, 4, 0, 2],
    ];
    for v in samples {
        let (s, n) = mean_ratio(&v).unwrap();
        let expected: i128 = v.iter().map(|x| *x as i128).sum();
        assert_eq!(s, expected);
        assert_eq!(n, v.len());
        let mean = s as f32 / n as f32;
        assert_eq!(mean, expected as f32 / v.len() as f32);
    }
}

#[test]
fn mean_of_empty_list_is_an_error() {
    let v: Vec<i32> = Vec::new();
    assert_eq!(mean_ratio(&v), Err(StatsError::EmptyInput));
}

#[test]
fn median_of_example_list() {
    // sorted: [0, 1, 2, 2, 3, 4, 6, 6], index 4 holds 3
    let v: Vec<i32> = vec![6, 3, 4, 0, 2, 1, 6, 2];
    assert_eq!(median(&v), Ok(3));
}

#[test]
fn median_takes_upper_middle_of_even_length_list() {
    let v: Vec<i32> = vec![1, 2, 3, 4];
    assert_eq!(median(&v), Ok(3));
}

#[test]
fn median_of_odd_length_list() {
    let v: Vec<i32> = vec![5, 1, 9];
    assert_eq!(median(&v), Ok(5));
}

#[test]
fn median_of_single_element() {
    let v: Vec<i32> = vec![42];
    assert_eq!(median(&v), Ok(42));
}

#[test]
fn median_of_empty_list_is_an_error() {
    let v: Vec<i32> = Vec::new();
    assert_eq!(median(&v), Err(StatsError::EmptyInput));
}

#[test]
fn sorted_copy_sorts_ascending() {
    let v: Vec<i32> = vec![6, 3, 4, 0, 2, 1, 6, 2];
    assert_eq!(sorted_copy(&v), vec![0, 1, 2, 2, 3, 4, 6, 6]);
    // the input itself is unchanged
    assert_eq!(v, vec![6, 3, 4, 0, 2, 1, 6, 2]);
}

#[test]
fn mode_of_example_list() {
    let v: Vec<i32> = vec![6, 3, 4, 0, 2, 1, 6, 2];
    let mut ms = mode(&v).unwrap();
    ms.sort();
    assert_eq!(ms, vec![2, 6]);
}

#[test]
fn mode_of_single_winner() {
    let v: Vec<i32> = vec![1, 2, 2, 3];
    assert_eq!(mode(&v), Ok(vec![2]));
}

#[test]
fn mode_of_all_distinct_values_lists_each_once() {
    let v: Vec<i32> = vec![3, 1, 2];
    let mut ms = mode(&v).unwrap();
    ms.sort();
    assert_eq!(ms, vec![1, 2, 3]);
}

#[test]
fn mode_of_empty_list_is_an_error() {
    let v: Vec<i32> = Vec::new();
    assert_eq!(mode(&v), Err(StatsError::EmptyInput));
}

#[test]
fn mode_has_maximal_frequency_only() {
    let v: Vec<i32> = vec![5, 5, 5, 7, 7, 1];
    assert_eq!(mode(&v), Ok(vec![5]));
    assert_eq!(count_occurrences(&v, 5), 3);
    assert_eq!(count_occurrences(&v, 7), 2);
    assert_eq!(count_occurrences(&v, 0), 0);
}

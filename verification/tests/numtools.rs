use audio_spectrum::numtools::{apply_window, lerp, lerp_index_fn, scaled_ratio};

#[test]
fn lerp_of_floats() {
    let r: f32 = lerp(2.0f32, 6.0f32, 0.25f32);
    assert_eq!(r, 3.0);
}

#[test]
fn lerp_at_the_ends() {
    let start: f32 = lerp(2.0f32, 6.0f32, 0.0f32);
    let end: f32 = lerp(2.0f32, 6.0f32, 1.0f32);
    assert_eq!(start, 2.0);
    assert_eq!(end, 6.0);
}

#[test]
fn lerp_of_integers() {
    let r: i32 = lerp(10i32, 4i32, 2i32);
    assert_eq!(r, -2);
}

#[test]
fn lerp_index_fn_reads_between_two_values() {
    let data = [1.0f32, 3.0, 7.0];
    let r = lerp_index_fn(|i: usize| data.get(i).copied(), 1, 2, 0.5f32, 0.0f32);
    assert_eq!(r, 5.0);
}

#[test]
fn lerp_index_fn_wraps_beyond_the_data() {
    let data = [1.0f32, 3.0, 8.0];
    let r = lerp_index_fn(|i: usize| data.get(i).copied(), 2, 3, 0.25f32, 0.0f32);
    assert_eq!(r, 6.0);
    let outside = lerp_index_fn(|i: usize| data.get(i).copied(), 7, 8, 0.5f32, -1.0f32);
    assert_eq!(outside, -1.0);
}

#[test]
fn a_window_multiplies_each_sample_by_its_weight() {
    let mut data = vec![1.0f32, 2.0, 3.0, 4.0];
    apply_window(&mut data, 4, &|index: usize, size: usize| (index + size) as f32);
    assert_eq!(data, vec![4.0, 10.0, 18.0, 28.0]);
}

#[test]
fn a_window_over_nothing_does_nothing() {
    let mut data: Vec<f32> = Vec::new();
    apply_window(&mut data, 0, &|_index: usize, _size: usize| 2.0f32);
    assert!(data.is_empty());
}

#[test]
fn a_scaled_ratio_divides_first() {
    assert_eq!(scaled_ratio(3.0f32, 4.0f32, 8.0f32), 6.0);
    assert_eq!(scaled_ratio(7u32, 2u32, 10u32), 30);
}

#[test]
fn a_scaled_ratio_of_floats_survives_a_zero_denominator() {
    assert!(scaled_ratio(0.0f32, 0.0f32, 8.0f32).is_nan());
    assert_eq!(scaled_ratio(1.0f32, 0.0f32, 8.0f32), f32::INFINITY);
}

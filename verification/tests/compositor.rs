use audio_spectrum::compositor::{
    at_frequency, compose, interpolated, resolution_blend, smooth, temporal_smoothing,
    ChannelAnalysis,
};
use audio_spectrum::fft::{FrequencySpectrum, Hertz};

fn as_scalar(count: usize) -> f32 {
    count as f32
}

fn split(position: f32) -> (usize, usize, f32) {
    (
        position.floor() as usize,
        (position + 1.0).floor() as usize,
        position.fract(),
    )
}

fn bins_of(spectrum: &FrequencySpectrum<f32>) -> Vec<f32> {
    (0..spectrum.len()).map(|bin| spectrum.get(bin).unwrap()).collect()
}

fn analysis(long: Vec<f32>, short: Vec<f32>, sample_rate: u32) -> ChannelAnalysis<f32> {
    ChannelAnalysis {
        long_window: FrequencySpectrum::new(long, sample_rate),
        short_window: FrequencySpectrum::new(short, sample_rate),
    }
}

#[test]
fn interpolated_reads_between_bins() {
    let spectrum = FrequencySpectrum::new(vec![10.0f32, 20.0, 40.0], 8);
    assert_eq!(interpolated(&spectrum, 0.0, &split, 0.0), 10.0);
    assert_eq!(interpolated(&spectrum, 0.5, &split, 0.0), 15.0);
    assert_eq!(interpolated(&spectrum, 1.25, &split, 0.0), 25.0);
}

#[test]
fn interpolated_reads_missing_bins_as_the_wrap_value() {
    let spectrum = FrequencySpectrum::new(vec![10.0f32, 20.0], 8);
    assert_eq!(interpolated(&spectrum, 1.5, &split, 0.0), 10.0);
    assert_eq!(interpolated(&spectrum, 5.0, &split, 0.0), 0.0);
    assert_eq!(interpolated(&spectrum, 5.0, &split, 3.0), 3.0);
}

#[test]
fn a_spectrum_is_read_at_a_frequency() {
    let short = FrequencySpectrum::new(vec![10.0f32, 20.0], 8);
    assert_eq!(at_frequency(&short, Hertz(0.0), &as_scalar, &split, 0.0), 10.0);
    assert_eq!(at_frequency(&short, Hertz(1.0), &as_scalar, &split, 0.0), 15.0);
    assert_eq!(at_frequency(&short, Hertz(2.0), &as_scalar, &split, 0.0), 20.0);
    assert_eq!(at_frequency(&short, Hertz(3.0), &as_scalar, &split, 0.0), 10.0);
    assert_eq!(at_frequency(&short, Hertz(9.0), &as_scalar, &split, 0.5), 0.5);
}

#[test]
fn a_bin_is_matched_by_frequency_not_by_index() {
    let long = FrequencySpectrum::new(vec![0.0f32; 4], 8);
    let short = FrequencySpectrum::new(vec![10.0f32, 20.0], 8);
    let read: Vec<f32> = (0..4)
        .map(|bin| at_frequency(&short, long.bin_to_hertz(bin, &as_scalar), &as_scalar, &split, 0.0))
        .collect();
    assert_eq!(read, vec![10.0, 15.0, 20.0, 10.0]);
}

#[test]
fn the_resolution_blend_moves_each_bin_towards_the_short_window() {
    let long = FrequencySpectrum::new(vec![1.0f32, 2.0, 3.0, 4.0], 8);
    let short = FrequencySpectrum::new(vec![10.0f32, 20.0], 8);
    let blended = resolution_blend(&long, &short, 0.6, &as_scalar, &split, 0.0);
    assert_eq!(
        bins_of(&blended),
        vec![
            1.0 + (10.0 - 1.0) * 0.6f32,
            2.0 + (15.0 - 2.0) * 0.6f32,
            3.0 + (20.0 - 3.0) * 0.6f32,
            4.0 + (10.0 - 4.0) * 0.6f32,
        ]
    );
    assert_eq!(blended.sample_rate(), 8);
}

#[test]
fn a_blend_weight_of_zero_keeps_the_long_window() {
    let long = FrequencySpectrum::new(vec![1.0f32, 2.0, 3.0, 4.0], 8);
    let short = FrequencySpectrum::new(vec![10.0f32, 20.0], 8);
    let blended = resolution_blend(&long, &short, 0.0, &as_scalar, &split, 0.0);
    assert_eq!(bins_of(&blended), vec![1.0, 2.0, 3.0, 4.0]);
}

#[test]
fn smoothing_with_factor_zero_keeps_the_previous_spectrum() {
    let previous = FrequencySpectrum::new(vec![0.5f32, 0.25, 0.125, 1.0], 8);
    let blended = FrequencySpectrum::new(vec![4.0f32, 3.0, 2.0, 1.0], 8);
    let shown = temporal_smoothing(&blended, &previous, 0.0, &as_scalar, &split, 0.0);
    assert_eq!(bins_of(&shown), vec![0.5, 0.25, 0.125, 1.0]);
}

#[test]
fn smoothing_with_factor_one_takes_the_new_spectrum() {
    let previous = FrequencySpectrum::new(vec![0.5f32, 0.25, 0.125, 1.0], 8);
    let blended = FrequencySpectrum::new(vec![4.0f32, 3.0, 2.0, 1.0], 8);
    let shown = temporal_smoothing(&blended, &previous, 1.0, &as_scalar, &split, 0.0);
    assert_eq!(bins_of(&shown), vec![4.0, 3.0, 2.0, 1.0]);
}

#[test]
fn smoothing_moves_part_of_the_way() {
    let previous = FrequencySpectrum::new(vec![0.0f32, 8.0], 4);
    let blended = FrequencySpectrum::new(vec![4.0f32, 0.0], 4);
    let shown = temporal_smoothing(&blended, &previous, 0.25, &as_scalar, &split, 0.0);
    assert_eq!(bins_of(&shown), vec![1.0, 6.0]);
}

fn shown(frame: &[Result<FrequencySpectrum<f32>, u8>], channel: usize) -> Vec<f32> {
    match &frame[channel] {
        Ok(spectrum) => bins_of(spectrum),
        Err(code) => panic!("channel {} failed with {}", channel, code),
    }
}

fn failure(frame: &[Result<FrequencySpectrum<f32>, u8>], channel: usize) -> u8 {
    match &frame[channel] {
        Ok(_) => panic!("channel {} did not fail", channel),
        Err(code) => *code,
    }
}

#[test]
fn a_new_channel_is_shown_unsmoothed() {
    let previous = vec![FrequencySpectrum::new(vec![1.0f32, 1.0], 8)];
    let current: Vec<Result<FrequencySpectrum<f32>, u8>> = vec![
        Ok(FrequencySpectrum::new(vec![3.0f32, 5.0], 8)),
        Ok(FrequencySpectrum::new(vec![7.0f32, 9.0], 8)),
    ];
    let frame = smooth(
        previous,
        current,
        |now: &FrequencySpectrum<f32>, before: &FrequencySpectrum<f32>| {
            temporal_smoothing(now, before, 0.5, &as_scalar, &split, 0.0)
        },
    );
    assert_eq!(frame.len(), 2);
    assert_eq!(shown(&frame, 0), vec![2.0, 3.0]);
    assert_eq!(shown(&frame, 1), vec![7.0, 9.0]);
}

#[test]
fn a_channel_that_is_gone_is_dropped() {
    let previous = vec![
        FrequencySpectrum::new(vec![1.0f32], 8),
        FrequencySpectrum::new(vec![2.0f32], 8),
        FrequencySpectrum::new(vec![3.0f32], 8),
    ];
    let current: Vec<Result<FrequencySpectrum<f32>, u8>> =
        vec![Ok(FrequencySpectrum::new(vec![5.0f32], 8))];
    let frame = smooth(
        previous,
        current,
        |now: &FrequencySpectrum<f32>, _before: &FrequencySpectrum<f32>| {
            FrequencySpectrum::new(vec![now.get(0).unwrap() + 100.0], 8)
        },
    );
    assert_eq!(frame.len(), 1);
    assert_eq!(shown(&frame, 0), vec![105.0]);
}

#[test]
fn a_failed_channel_keeps_its_failure_and_its_place() {
    let previous = vec![
        FrequencySpectrum::new(vec![1.0f32], 8),
        FrequencySpectrum::new(vec![2.0f32], 8),
    ];
    let current: Vec<Result<FrequencySpectrum<f32>, u8>> = vec![
        Ok(FrequencySpectrum::new(vec![5.0f32], 8)),
        Err(4),
        Err(6),
        Ok(FrequencySpectrum::new(vec![8.0f32], 8)),
    ];
    let frame = smooth(
        previous,
        current,
        |now: &FrequencySpectrum<f32>, before: &FrequencySpectrum<f32>| {
            FrequencySpectrum::new(vec![now.get(0).unwrap() + before.get(0).unwrap()], 8)
        },
    );
    assert_eq!(frame.len(), 4);
    assert_eq!(shown(&frame, 0), vec![6.0]);
    assert_eq!(failure(&frame, 1), 4);
    assert_eq!(failure(&frame, 2), 6);
    assert_eq!(shown(&frame, 3), vec![8.0]);
}

#[test]
fn smoothing_nothing_against_nothing_is_nothing() {
    let frame = smooth(
        Vec::<FrequencySpectrum<f32>>::new(),
        Vec::<Result<FrequencySpectrum<f32>, u8>>::new(),
        |now: &FrequencySpectrum<f32>, _before: &FrequencySpectrum<f32>| {
            FrequencySpectrum::new(bins_of(now), 1)
        },
    );
    assert!(frame.is_empty());
}

#[test]
fn the_first_frame_is_the_raw_blend() {
    let analyses: Vec<Result<ChannelAnalysis<f32>, u8>> =
        vec![Ok(analysis(vec![1.0, 2.0, 3.0, 4.0], vec![10.0, 20.0], 8))];
    let frame = compose(Vec::new(), analyses, 0.6, 0.9, &as_scalar, &split, 0.0);
    assert_eq!(frame.len(), 1);
    assert_eq!(
        shown(&frame, 0),
        vec![
            1.0 + (10.0 - 1.0) * 0.6f32,
            2.0 + (15.0 - 2.0) * 0.6f32,
            3.0 + (20.0 - 3.0) * 0.6f32,
            4.0 + (10.0 - 4.0) * 0.6f32,
        ]
    );
}

#[test]
fn a_later_frame_is_smoothed_against_the_one_before() {
    let previous = vec![FrequencySpectrum::new(vec![0.0f32, 0.0, 0.0, 0.0], 8)];
    let analyses: Vec<Result<ChannelAnalysis<f32>, u8>> = vec![
        Ok(analysis(vec![8.0, 8.0, 8.0, 8.0], vec![8.0, 8.0, 8.0, 8.0], 8)),
        Ok(analysis(vec![2.0, 2.0], vec![2.0, 2.0], 8)),
    ];
    let frame = compose(previous, analyses, 0.5, 0.25, &as_scalar, &split, 0.0);
    assert_eq!(frame.len(), 2);
    assert_eq!(shown(&frame, 0), vec![2.0, 2.0, 2.0, 2.0]);
    assert_eq!(shown(&frame, 1), vec![2.0, 2.0]);
}

#[test]
fn with_no_time_elapsed_the_frame_stays_as_it_was() {
    let previous = vec![FrequencySpectrum::new(vec![0.5f32, 0.25, 0.125, 1.0], 8)];
    let analyses: Vec<Result<ChannelAnalysis<f32>, u8>> =
        vec![Ok(analysis(vec![4.0, 3.0, 2.0, 1.0], vec![1.0, 1.0], 8))];
    let factor = 1.0 - (1.0 - 0.2f32).powf(0.0 * 100.0);
    let frame = compose(previous, analyses, 0.6, factor, &as_scalar, &split, 0.0);
    assert_eq!(shown(&frame, 0), vec![0.5, 0.25, 0.125, 1.0]);
}

#[test]
fn after_a_long_time_the_frame_is_the_new_blend() {
    let previous = vec![FrequencySpectrum::new(vec![0.5f32, 0.25, 0.125, 1.0], 8)];
    let long = vec![4.0f32, 3.0, 2.0, 1.0];
    let short = vec![1.0f32, 1.0];
    let blended = resolution_blend(
        &FrequencySpectrum::new(long.clone(), 8),
        &FrequencySpectrum::new(short.clone(), 8),
        0.5,
        &as_scalar,
        &split,
        0.0,
    );
    let analyses: Vec<Result<ChannelAnalysis<f32>, u8>> = vec![Ok(analysis(long, short, 8))];
    let factor = 1.0 - (1.0 - 0.2f32).powf(10.0 * 100.0);
    assert_eq!(factor, 1.0);
    let frame = compose(previous, analyses, 0.5, factor, &as_scalar, &split, 0.0);
    assert_eq!(shown(&frame, 0), bins_of(&blended));
}

#[test]
fn a_failed_analysis_fails_its_channel_only() {
    let previous = vec![
        FrequencySpectrum::new(vec![0.0f32], 8),
        FrequencySpectrum::new(vec![2.0f32], 8),
        FrequencySpectrum::new(vec![0.0f32], 8),
    ];
    let analyses: Vec<Result<ChannelAnalysis<f32>, u8>> = vec![
        Ok(analysis(vec![4.0], vec![4.0], 8)),
        Err(7),
        Ok(analysis(vec![8.0], vec![8.0], 8)),
        Err(9),
    ];
    let frame = compose(previous, analyses, 0.5, 0.5, &as_scalar, &split, 0.0);
    assert_eq!(frame.len(), 4);
    assert_eq!(shown(&frame, 0), vec![2.0]);
    assert_eq!(failure(&frame, 1), 7);
    assert_eq!(shown(&frame, 2), vec![4.0]);
    assert_eq!(failure(&frame, 3), 9);
}

#[test]
fn no_channels_compose_to_no_frame_entries() {
    let previous = vec![FrequencySpectrum::new(vec![1.0f32], 8)];
    let analyses: Vec<Result<ChannelAnalysis<f32>, u8>> = Vec::new();
    let frame = compose(previous, analyses, 0.6, 0.5, &as_scalar, &split, 0.0);
    assert!(frame.is_empty());
}

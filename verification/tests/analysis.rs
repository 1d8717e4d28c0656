use audio_spectrum::compositor::analyse_channel;
use audio_spectrum::fft::{AudioView, FrequencySpectrum, SpectrumError};
use audio_spectrum::introspect::{introspect, Introspectable, RoundRobin};
use realfft::num_complex::Complex;
use realfft::{FftError, RealFftPlanner};
use std::f32::consts::PI;

fn hann_weight(index: usize, size: usize) -> f32 {
    0.5 - 0.5 * ((2.0 * PI * index as f32) / (size as f32 - 1.0)).cos()
}

fn normalised(bin: &Complex<f32>, size: usize) -> f32 {
    (bin / size as f32).norm()
}

fn spectrum_of(
    view: &AudioView<f32>,
    planner: &mut RealFftPlanner<f32>,
) -> Result<FrequencySpectrum<f32>, SpectrumError<FftError>> {
    view.analyze(
        &hann_weight,
        |mut input: Vec<f32>| {
            let fft = planner.plan_fft_forward(input.len());
            let mut output = fft.make_output_vec();
            fft.process(&mut input, &mut output)?;
            Ok(output)
        },
        &normalised,
    )
}

fn loudest_bin(spectrum: &FrequencySpectrum<f32>) -> usize {
    let mut loudest = 0;
    for bin in 0..spectrum.len() {
        if spectrum.get(bin).unwrap() > spectrum.get(loudest).unwrap() {
            loudest = bin;
        }
    }
    loudest
}

#[test]
fn silence_has_no_magnitude_anywhere() {
    let mut planner = RealFftPlanner::<f32>::new();
    let view = AudioView::new(44100, vec![0.0f32; 1024]);
    let spectrum = spectrum_of(&view, &mut planner).ok().unwrap();
    assert_eq!(spectrum.len(), 513);
    for bin in 0..spectrum.len() {
        assert_eq!(spectrum.get(bin), Some(0.0));
    }
}

#[test]
fn a_window_of_n_samples_gives_half_n_plus_one_bins() {
    let mut planner = RealFftPlanner::<f32>::new();
    for size in [1usize, 2, 3, 8, 9, 100, 255] {
        let view = AudioView::new(8000, vec![0.25f32; size]);
        let spectrum = spectrum_of(&view, &mut planner).ok().unwrap();
        assert_eq!(spectrum.len(), size / 2 + 1);
        assert_eq!(spectrum.sample_rate(), 8000);
    }
}

#[test]
fn a_sine_tone_peaks_at_its_frequency() {
    let sample_rate: u32 = 8192;
    let frequency = 1000.0f32;
    let (mut session, mut cursor): (Introspectable<f32>, RoundRobin) = introspect(sample_rate, 1, 8192);
    let tone: Vec<f32> = (0..8192)
        .map(|n| (2.0 * PI * frequency * n as f32 / sample_rate as f32).sin())
        .collect();
    session.write_interleaved(&mut cursor, &tone);
    let views = session.audio_views();
    let mut planner = RealFftPlanner::<f32>::new();
    let spectrum = spectrum_of(&views[0], &mut planner).ok().unwrap();
    assert_eq!(spectrum.len(), 4097);
    let expected = (frequency / (sample_rate as f32 / 8192.0)).round() as usize;
    let loudest = loudest_bin(&spectrum);
    assert!(
        loudest + 1 >= expected && loudest <= expected + 1,
        "the loudest bin is {}, the tone is at {}",
        loudest,
        expected
    );
}

#[test]
fn the_short_window_of_a_sine_tone_peaks_at_its_frequency_too() {
    let sample_rate: u32 = 8192;
    let frequency = 512.0f32;
    let tone: Vec<f32> = (0..8192)
        .map(|n| (2.0 * PI * frequency * n as f32 / sample_rate as f32).sin())
        .collect();
    let view = AudioView::new(sample_rate, tone);
    let mut planner = RealFftPlanner::<f32>::new();
    let spectrum = spectrum_of(&view.subview(0..1024), &mut planner).ok().unwrap();
    assert_eq!(spectrum.len(), 513);
    let loudest = loudest_bin(&spectrum);
    assert!(loudest >= 63 && loudest <= 65, "the loudest bin is {}", loudest);
}

#[test]
fn the_view_is_left_as_it_was() {
    let mut planner = RealFftPlanner::<f32>::new();
    let view = AudioView::new(44100, vec![0.5f32, -0.5, 0.25, -0.25]);
    let _ = spectrum_of(&view, &mut planner);
    assert_eq!(view.samples(), &vec![0.5, -0.5, 0.25, -0.25]);
}

#[test]
fn the_transform_sees_the_windowed_samples() {
    let view = AudioView::new(10, vec![1.0f32, 2.0, 3.0]);
    let mut seen: Vec<f32> = Vec::new();
    let outcome: Result<FrequencySpectrum<f32>, SpectrumError<()>> = view.analyze(
        &|index: usize, size: usize| (index * size) as f32,
        |input: Vec<f32>| {
            seen = input.clone();
            Ok(input[1..].to_vec())
        },
        &|bin: &f32, size: usize| *bin + size as f32,
    );
    let spectrum = outcome.ok().unwrap();
    assert_eq!(seen, vec![0.0, 6.0, 18.0]);
    assert_eq!(spectrum.len(), 2);
    assert_eq!(spectrum.get(0), Some(9.0));
    assert_eq!(spectrum.get(1), Some(21.0));
    assert_eq!(spectrum.sample_rate(), 10);
}

#[test]
fn a_failing_transform_is_a_conversion_failure() {
    let view = AudioView::new(44100, vec![0.0f32; 16]);
    let outcome: Result<FrequencySpectrum<f32>, SpectrumError<FftError>> = view.analyze(
        &hann_weight,
        |mut input: Vec<f32>| {
            let fft = RealFftPlanner::<f32>::new().plan_fft_forward(32);
            let mut output = fft.make_output_vec();
            fft.process(&mut input, &mut output)?;
            Ok(output)
        },
        &normalised,
    );
    assert!(matches!(
        outcome,
        Err(SpectrumError::ConversionFailed(FftError::InputBuffer(32, 16)))
    ));
}

#[test]
fn an_empty_view_is_handed_to_the_transform_as_it_is() {
    let view = AudioView::new(44100, Vec::<f32>::new());
    let mut sizes: Vec<usize> = Vec::new();
    let outcome: Result<FrequencySpectrum<f32>, SpectrumError<String>> = view.analyze(
        &hann_weight,
        |input: Vec<f32>| {
            sizes.push(input.len());
            Err::<Vec<Complex<f32>>, String>("nothing to transform".to_string())
        },
        &normalised,
    );
    assert_eq!(sizes, vec![0]);
    match outcome {
        Err(SpectrumError::ConversionFailed(reason)) => assert_eq!(reason, "nothing to transform"),
        _ => panic!("the failure of the transform was not handed on"),
    }
}

#[test]
fn an_empty_view_through_the_real_transform_has_one_bin_without_a_value() {
    let mut planner = RealFftPlanner::<f32>::new();
    let view = AudioView::new(44100, Vec::<f32>::new());
    let spectrum = spectrum_of(&view, &mut planner).ok().unwrap();
    assert_eq!(spectrum.len(), 1);
    assert!(spectrum.get(0).unwrap().is_nan());
}

fn forward(
    planner: &std::cell::RefCell<RealFftPlanner<f32>>,
    mut input: Vec<f32>,
) -> Result<Vec<Complex<f32>>, FftError> {
    let mut output = vec![Complex::new(0.0, 0.0); input.len() / 2 + 1];
    let fft = planner.borrow_mut().plan_fft_forward(input.len());
    fft.process(&mut input, &mut output)?;
    Ok(output)
}

#[test]
fn a_channel_is_analysed_at_both_window_lengths() {
    let sample_rate: u32 = 8192;
    let tone: Vec<f32> = (0..8192)
        .map(|n| (2.0 * PI * 1024.0 * n as f32 / sample_rate as f32).sin())
        .collect();
    let view = AudioView::new(sample_rate, tone);
    let planner = std::cell::RefCell::new(RealFftPlanner::<f32>::new());
    let analysis = analyse_channel(
        &view,
        1024,
        &hann_weight,
        |input: Vec<f32>| forward(&planner, input),
        |input: Vec<f32>| forward(&planner, input),
        &normalised,
    )
    .ok()
    .unwrap();
    assert_eq!(analysis.short_window.len(), 513);
    assert_eq!(analysis.long_window.len(), 4097);
    assert_eq!(analysis.short_window.sample_rate(), sample_rate);
    assert_eq!(analysis.long_window.sample_rate(), sample_rate);
    assert_eq!(loudest_bin(&analysis.short_window), 128);
    assert_eq!(loudest_bin(&analysis.long_window), 1024);
}

#[test]
fn the_short_window_is_the_newest_samples_and_comes_first() {
    let view = AudioView::new(10, vec![1.0f32, 2.0, 3.0, 4.0]);
    let order = std::cell::RefCell::new(Vec::new());
    let analysis = analyse_channel(
        &view,
        2,
        &|_index: usize, _size: usize| 1.0f32,
        |input: Vec<f32>| {
            order.borrow_mut().push(input.clone());
            Ok::<Vec<f32>, ()>(input)
        },
        |input: Vec<f32>| {
            order.borrow_mut().push(input.clone());
            Ok::<Vec<f32>, ()>(input[..3].to_vec())
        },
        &|bin: &f32, _size: usize| *bin,
    )
    .ok()
    .unwrap();
    assert_eq!(order.into_inner(), vec![vec![1.0, 2.0], vec![1.0, 2.0, 3.0, 4.0]]);
    assert_eq!(analysis.short_window.get(1), Some(2.0));
    assert_eq!(analysis.long_window.get(2), Some(3.0));
}

#[test]
fn a_failed_short_window_ends_the_analysis_of_the_channel() {
    let view = AudioView::new(10, vec![1.0f32, 2.0, 3.0, 4.0]);
    let long_ran = std::cell::Cell::new(false);
    let outcome = analyse_channel(
        &view,
        2,
        &|_index: usize, _size: usize| 1.0f32,
        |_input: Vec<f32>| Err::<Vec<f32>, u8>(3),
        |input: Vec<f32>| {
            long_ran.set(true);
            Ok::<Vec<f32>, u8>(input[..3].to_vec())
        },
        &|bin: &f32, _size: usize| *bin,
    );
    assert!(matches!(outcome, Err(SpectrumError::ConversionFailed(3))));
    assert!(!long_ran.get());
}

#[test]
fn a_failed_long_window_fails_the_channel() {
    let view = AudioView::new(10, vec![1.0f32, 2.0, 3.0, 4.0]);
    let outcome = analyse_channel(
        &view,
        2,
        &|_index: usize, _size: usize| 1.0f32,
        |input: Vec<f32>| Ok::<Vec<f32>, u8>(input),
        |_input: Vec<f32>| Err::<Vec<f32>, u8>(5),
        &|bin: &f32, _size: usize| *bin,
    );
    assert!(matches!(outcome, Err(SpectrumError::ConversionFailed(5))));
}

use audio_spectrum::dsp::{
    Demangle, Pad, ProcessingError, ProcessingStep, Signal, SignalFlag, Subsample,
};

struct Doubled;

impl ProcessingStep<f32> for Doubled {
    fn friendly_name(&self) -> String {
        "Doubled".to_string()
    }

    fn is_valid_input(&self, signal: &Signal<f32>) -> bool {
        signal.has_flag(SignalFlag::AmplitudeCodomain)
    }

    fn process(&self, signal: Signal<f32>) -> Signal<f32> {
        let data = signal.samples().into_iter().map(|x| x * 2.0).collect();
        Signal::with(signal, data)
    }
}

fn signal_of(samples: &[f32]) -> Signal<f32> {
    Signal::with(Signal::new(44100), samples.to_vec())
}

#[test]
fn a_new_signal_is_an_empty_amplitude_over_time() {
    let signal: Signal<f32> = Signal::new(44100);
    assert_eq!(signal.len(), 0);
    assert_eq!(signal.sample_rate(), 44100);
    assert!(signal.has_flag(SignalFlag::TimeDomain));
    assert!(signal.has_flag(SignalFlag::AmplitudeCodomain));
    assert!(!signal.has_flag(SignalFlag::FrequencyDomain));
    assert!(!signal.has_flag(SignalFlag::DBFSCodomain));
}

#[test]
fn flags_can_be_set_and_cleared() {
    let signal: Signal<f32> = Signal::new(8000)
        .deflag(SignalFlag::TimeDomain)
        .flag(SignalFlag::FrequencyDomain);
    assert!(!signal.has_flag(SignalFlag::TimeDomain));
    assert!(signal.has_flag(SignalFlag::FrequencyDomain));
    assert!(signal.has_flag(SignalFlag::AmplitudeCodomain));
    let again = signal.flag(SignalFlag::FrequencyDomain).deflag(SignalFlag::DBFSCodomain);
    assert!(again.has_flag(SignalFlag::FrequencyDomain));
    assert!(!again.has_flag(SignalFlag::DBFSCodomain));
    assert_eq!(again.sample_rate(), 8000);
}

#[test]
fn with_takes_rate_and_flags_from_the_source() {
    let source: Signal<f32> = Signal::new(22050).flag(SignalFlag::DBFSCodomain);
    let signal = Signal::with(source, vec![1.0, 2.0]);
    assert_eq!(signal.samples(), vec![1.0, 2.0]);
    assert_eq!(signal.sample_rate(), 22050);
    assert!(signal.has_flag(SignalFlag::DBFSCodomain));
    assert!(signal.has_flag(SignalFlag::TimeDomain));
}

#[test]
fn pushed_samples_end_up_newest_first() {
    let mut signal = signal_of(&[9.0]);
    signal.push(&[1.0, 2.0, 3.0]);
    assert_eq!(signal.samples(), vec![3.0, 2.0, 1.0, 9.0]);
    signal.push(&[]);
    assert_eq!(signal.len(), 4);
}

#[test]
fn truncate_keeps_the_front() {
    let mut signal = signal_of(&[1.0, 2.0, 3.0]);
    signal.truncate(5);
    assert_eq!(signal.samples(), vec![1.0, 2.0, 3.0]);
    signal.truncate(2);
    assert_eq!(signal.samples(), vec![1.0, 2.0]);
    signal.truncate(0);
    assert_eq!(signal.len(), 0);
}

#[test]
fn resample_keeps_a_signal_at_the_same_rate() {
    let source = signal_of(&[1.0, 2.0]).flag(SignalFlag::FrequencyDomain);
    let same = Signal::resample(&source, 44100);
    assert_eq!(same.samples(), vec![1.0, 2.0]);
    assert!(same.has_flag(SignalFlag::FrequencyDomain));
}

#[test]
fn resample_starts_afresh_at_another_rate() {
    let source = signal_of(&[1.0, 2.0]).flag(SignalFlag::FrequencyDomain);
    let other = Signal::resample(&source, 48000);
    assert_eq!(other.len(), 0);
    assert_eq!(other.sample_rate(), 48000);
    assert!(!other.has_flag(SignalFlag::FrequencyDomain));
    assert!(other.has_flag(SignalFlag::TimeDomain));
}

#[test]
fn pad_fills_up_to_a_whole_chunk() {
    let step: Box<dyn ProcessingStep<f32>> = Pad::to_size(4);
    let padded = signal_of(&[1.0, 2.0, 3.0, 4.0, 5.0]).process(&step).ok().unwrap();
    assert_eq!(padded.samples(), vec![1.0, 2.0, 3.0, 4.0, 5.0, 0.0, 0.0, 0.0]);
    assert_eq!(step.friendly_name(), "Zero-pad");
}

#[test]
fn pad_leaves_whole_chunks_alone() {
    let step: Box<dyn ProcessingStep<f32>> = Pad::to_size(2);
    let padded = signal_of(&[1.0, 2.0, 3.0, 4.0]).process(&step).ok().unwrap();
    assert_eq!(padded.samples(), vec![1.0, 2.0, 3.0, 4.0]);
    let empty = signal_of(&[]).process(&step).ok().unwrap();
    assert_eq!(empty.len(), 0);
}

#[test]
fn demangle_keeps_the_positive_frequencies() {
    let step: Box<dyn ProcessingStep<f32>> = Demangle::new();
    let spectrum = signal_of(&[0.0, 1.0, 2.0, 3.0, 4.0, 5.0, 6.0, 7.0]).flag(SignalFlag::FrequencyDomain);
    let positive = spectrum.process(&step).ok().unwrap();
    assert_eq!(positive.samples(), vec![1.0, 2.0, 3.0, 4.0]);
    assert!(positive.has_flag(SignalFlag::FrequencyDomain));
    let single = signal_of(&[9.0]).flag(SignalFlag::FrequencyDomain).process(&step).ok().unwrap();
    assert_eq!(single.len(), 0);
    assert_eq!(step.friendly_name(), "Demangle");
}

#[test]
fn demangle_rejects_a_signal_over_time() {
    let step: Box<dyn ProcessingStep<f32>> = Demangle::new();
    let outcome = signal_of(&[0.0, 1.0, 2.0]).process(&step);
    assert!(outcome.is_err());
}

#[test]
fn subsample_keeps_every_nth_sample() {
    let step: Box<dyn ProcessingStep<f32>> = Subsample::with_factor(3);
    let kept = signal_of(&[0.0, 1.0, 2.0, 3.0, 4.0, 5.0, 6.0]).process(&step).ok().unwrap();
    assert_eq!(kept.samples(), vec![0.0, 3.0, 6.0]);
    let exact = signal_of(&[0.0, 1.0, 2.0, 3.0, 4.0, 5.0]).process(&step).ok().unwrap();
    assert_eq!(exact.samples(), vec![0.0, 3.0]);
    let empty = signal_of(&[]).process(&step).ok().unwrap();
    assert_eq!(empty.len(), 0);
    assert_eq!(step.friendly_name(), "Subsample");
    assert_eq!(Subsample::with_factor(3).factor, 3);
}

#[test]
fn subsample_by_one_keeps_everything() {
    let step: Box<dyn ProcessingStep<f32>> = Subsample::with_factor(1);
    let kept = signal_of(&[4.0, 5.0, 6.0]).process(&step).ok().unwrap();
    assert_eq!(kept.samples(), vec![4.0, 5.0, 6.0]);
}

#[test]
fn a_pipeline_runs_its_steps_in_order() {
    let steps: Vec<Box<dyn ProcessingStep<f32>>> =
        vec![Pad::to_size(4), Box::new(Doubled), Subsample::with_factor(2)];
    let outcome = signal_of(&[1.0, 2.0, 3.0, 4.0, 5.0]).process_all(steps).ok().unwrap();
    assert_eq!(outcome.samples(), vec![2.0, 6.0, 10.0, 0.0]);
}

#[test]
fn a_pipeline_stops_at_the_first_step_that_rejects() {
    let steps: Vec<Box<dyn ProcessingStep<f32>>> =
        vec![Pad::to_size(4), Demangle::new(), Subsample::with_factor(2)];
    let outcome = signal_of(&[1.0, 2.0, 3.0]).process_all(steps);
    assert!(outcome.is_err());
}

#[test]
fn an_empty_pipeline_returns_the_signal() {
    let outcome = signal_of(&[1.0, 2.0]).process_all(Vec::new()).ok().unwrap();
    assert_eq!(outcome.samples(), vec![1.0, 2.0]);
}

#[test]
fn a_processing_error_describes_itself() {
    let error = ProcessingError {};
    assert_eq!(error.message(), "an error occurred while processing");
}

#[test]
fn two_signals_blend_sample_by_sample() {
    let from = signal_of(&[0.0, 4.0, 8.0]);
    let to = signal_of(&[8.0, 4.0]).flag(SignalFlag::DBFSCodomain);
    let blend = Signal::lerp(from, to, 0.25, 0.0, &|x: &f32| x.is_finite());
    assert_eq!(blend.samples(), vec![2.0, 4.0, 6.0]);
    assert!(blend.has_flag(SignalFlag::DBFSCodomain));
    assert_eq!(blend.sample_rate(), 44100);
}

#[test]
fn a_sample_that_is_not_finite_counts_as_zero() {
    let from = signal_of(&[f32::NAN, f32::INFINITY, 2.0]);
    let to = signal_of(&[4.0, f32::NEG_INFINITY, 6.0, 8.0]);
    let blend = Signal::lerp(from, to, 0.5, 0.0, &|x: &f32| x.is_finite());
    assert_eq!(blend.samples(), vec![2.0, 0.0, 4.0, 4.0]);
}

#[test]
fn blending_nothing_gives_nothing() {
    let blend = Signal::lerp(signal_of(&[]), signal_of(&[]), 0.5, 0.0, &|x: &f32| x.is_finite());
    assert_eq!(blend.len(), 0);
}

#[test]
fn a_signal_can_be_cloned() {
    let signal = signal_of(&[1.0, 2.0]).flag(SignalFlag::FrequencyDomain);
    let copy = signal.clone();
    assert_eq!(copy.samples(), signal.samples());
    assert!(copy.has_flag(SignalFlag::FrequencyDomain));
}

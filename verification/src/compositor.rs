//! Composition of the spectrum that is shown for each channel.
//!
//! Every update yields, per channel, a long-window and a short-window analysis. The two are
//! blended into one spectrum, and the blend is smoothed against the spectrum that the
//! channel showed before. Channels are matched across updates by their index.

use crate::fft::{AudioView, FrequencySpectrum, Hertz, SpectrumError};
use crate::numtools::{is_lerp, lerp, lerp_admits, lerp_index_fn, read_or, Scalar};
use itertools::EitherOrBoth;
use itertools::Itertools;
use std::ops::Mul;
use vstd::prelude::*;

verus! {

/// One position of two sequences walked side by side, the longer one to its end.
pub enum Pairing<A, B> {
    /// Both sequences have an item at the position.
    Both(A, B),
    /// Only the left sequence reaches the position.
    Left(A),
    /// Only the right sequence reaches the position.
    Right(B),
}

/// The pairing of `left` and `right` position by position: `Both` while both last, then
/// `Left` or `Right` for what remains of the longer one.
pub open spec fn zip_longest_spec<A, B>(left: Seq<A>, right: Seq<B>) -> Seq<Pairing<A, B>> {
    Seq::new(
        if left.len() >= right.len() {
            left.len()
        } else {
            right.len()
        },
        |i: int|
            if i < left.len() && i < right.len() {
                Pairing::Both(left[i], right[i])
            } else if i < left.len() {
                Pairing::Left(left[i])
            } else {
                Pairing::Right(right[i])
            },
    )
}

/// `Itertools::zip_longest` over the items of two vectors, collected.
///
/// Trusted: the adaptor yields `Both` for every position that both vectors have, then
/// `Left` or `Right` with the remaining items of the longer vector, in order, and ends when
/// both are exhausted.
#[verifier::external_body]
fn zip_longest<A, B>(left: Vec<A>, right: Vec<B>) -> (pairs: Vec<Pairing<A, B>>)
    ensures
        pairs@ == zip_longest_spec(left@, right@),
{
    left.into_iter().zip_longest(right).map(
        |pair|
            match pair {
                EitherOrBoth::Both(l, r) => Pairing::Both(l, r),
                EitherOrBoth::Left(l) => Pairing::Left(l),
                EitherOrBoth::Right(r) => Pairing::Right(r),
            },
    ).collect()
}

/// The two analyses of one channel that an update blends.
pub struct ChannelAnalysis<T> {
    /// The analysis of the whole snapshot: fine in frequency, slow to follow the signal.
    pub long_window: FrequencySpectrum<T>,
    /// The analysis of the newest samples only: coarse in frequency, quick to follow.
    pub short_window: FrequencySpectrum<T>,
}

/// That `short` is the short window of `view`: its newest `size` samples, at its sample
/// rate.
pub open spec fn is_short_window<T: Copy>(view: &AudioView<T>, size: usize, short: &AudioView<T>) -> bool {
    &&& short@ == view@.subrange(0, size as int)
    &&& short.spec_sample_rate() == view.spec_sample_rate()
}

/// Whether both windows of `view` can be analysed: its newest `size` samples with
/// `transform_short`, and the whole of it with `transform_long`.
pub open spec fn channel_analysable<T: Copy, X, C, E, W, F, G, M>(
    view: &AudioView<T>,
    size: usize,
    weight: &W,
    transform_short: F,
    transform_long: G,
    magnitude: &M,
) -> bool where
    T: Mul<X, Output = T>,
    W: Fn(usize, usize) -> X,
    F: FnOnce(Vec<T>) -> Result<Vec<C>, E>,
    G: FnOnce(Vec<T>) -> Result<Vec<C>, E>,
    M: Fn(&C, usize) -> T,
 {
    &&& size <= view@.len()
    &&& forall|short: AudioView<T>| #[trigger]
        is_short_window(view, size, &short) ==> short.analysable(
            weight,
            transform_short,
            magnitude,
        )
    &&& view.analysable(weight, transform_long, magnitude)
}

/// That `outcome` is a result of analysing both windows of `view`: the short window is
/// analysed first, and its failure is the outcome; where it succeeded, the failure of the
/// long window is the outcome; where both succeeded, the outcome holds both spectra.
pub open spec fn analyses_channel<T: Copy, X, C, E, W, F, G, M>(
    view: &AudioView<T>,
    size: usize,
    weight: &W,
    transform_short: F,
    transform_long: G,
    magnitude: &M,
    outcome: Result<ChannelAnalysis<T>, SpectrumError<E>>,
) -> bool where
    T: Mul<X, Output = T>,
    W: Fn(usize, usize) -> X,
    F: FnOnce(Vec<T>) -> Result<Vec<C>, E>,
    G: FnOnce(Vec<T>) -> Result<Vec<C>, E>,
    M: Fn(&C, usize) -> T,
 {
    exists|short: AudioView<T>, short_outcome: Result<FrequencySpectrum<T>, SpectrumError<E>>|
        {
            &&& is_short_window(view, size, &short)
            &&& #[trigger] short.analyses_to(weight, transform_short, magnitude, short_outcome)
            &&& match short_outcome {
                Err(error) => outcome == Err::<ChannelAnalysis<T>, SpectrumError<E>>(error),
                Ok(short_spectrum) => exists|
                    long_outcome: Result<FrequencySpectrum<T>, SpectrumError<E>>,
                |
                    {
                        &&& #[trigger] view.analyses_to(
                            weight,
                            transform_long,
                            magnitude,
                            long_outcome,
                        )
                        &&& match long_outcome {
                            Err(error) => outcome == Err::<ChannelAnalysis<T>, SpectrumError<E>>(
                                error,
                            ),
                            Ok(long_spectrum) => {
                                &&& outcome matches Ok(analysis)
                                &&& analysis.short_window == short_spectrum
                                &&& analysis.long_window == long_spectrum
                            },
                        }
                    },
            }
        }
}

/// Analyses a channel at both window lengths.
///
/// The short window is the newest `short_window` samples of the view and is analysed
/// first, with `transform_short`; the long window is the whole view, analysed with
/// `transform_long`. Both share the window weights and the magnitude. The first analysis
/// that fails ends the work, and its failure is returned.
pub fn analyse_channel<T: Copy, X, C, E, W, F, G, M>(
    view: &AudioView<T>,
    short_window: usize,
    weight: &W,
    transform_short: F,
    transform_long: G,
    magnitude: &M,
) -> (outcome: Result<ChannelAnalysis<T>, SpectrumError<E>>) where
    T: Mul<X, Output = T>,
    W: Fn(usize, usize) -> X,
    F: FnOnce(Vec<T>) -> Result<Vec<C>, E>,
    G: FnOnce(Vec<T>) -> Result<Vec<C>, E>,
    M: Fn(&C, usize) -> T,

    requires
        channel_analysable(view, short_window, weight, transform_short, transform_long, magnitude),
    ensures
        analyses_channel(
            view,
            short_window,
            weight,
            transform_short,
            transform_long,
            magnitude,
            outcome,
        ),
{
    let short = view.subview(0..short_window);
    assert(is_short_window(view, short_window, &short));
    let short_outcome = short.analyze(weight, transform_short, magnitude);
    match short_outcome {
        Err(error) => Err(error),
        Ok(short_spectrum) => {
            let long_outcome = view.analyze(weight, transform_long, magnitude);
            match long_outcome {
                Err(error) => Err(error),
                Ok(long_spectrum) => Ok(
                    ChannelAnalysis { long_window: long_spectrum, short_window: short_spectrum },
                ),
            }
        },
    }
}

/// That `shown` is what the channel at index `channel` displays after an update with the
/// outcome `current` for it. A failure is shown as the failure that it is. A spectrum is
/// shown as an outcome of `smoother` on it and the channel's previous spectrum, where the
/// previous frame has that channel, and as it is, where the channel is new.
pub open spec fn smoothed_channel<T, E, F>(
    previous: Seq<FrequencySpectrum<T>>,
    channel: int,
    current: Result<FrequencySpectrum<T>, E>,
    smoother: F,
    shown: Result<FrequencySpectrum<T>, E>,
) -> bool where F: Fn(&FrequencySpectrum<T>, &FrequencySpectrum<T>) -> FrequencySpectrum<T> {
    match current {
        Ok(now) => if channel < previous.len() {
            &&& shown matches Ok(smoothed)
            &&& call_ensures(smoother, (&now, &previous[channel]), smoothed)
        } else {
            shown == current
        },
        Err(_) => shown == current,
    }
}

/// That `smoother` may be called on every spectrum of `current` whose channel the
/// previous frame has too, beside that channel's previous spectrum.
pub open spec fn smoothable<T, E, F>(
    previous: Seq<FrequencySpectrum<T>>,
    current: Seq<Result<FrequencySpectrum<T>, E>>,
    smoother: F,
) -> bool where F: Fn(&FrequencySpectrum<T>, &FrequencySpectrum<T>) -> FrequencySpectrum<T> {
    forall|channel: int|
        0 <= channel < previous.len() && channel < current.len() ==> (
        #[trigger] current[channel] matches Ok(now) ==> call_requires(
            smoother,
            (&now, &previous[channel]),
        ))
}

/// Smooths the outcomes of this update against the spectra of the previous one, channel
/// by channel.
///
/// The frame that results has one entry for each channel of `current`, in the same order.
/// A channel whose analysis failed keeps its failure: nothing older is shown in its place,
/// and no other channel is touched by it. A channel that `previous` has as well shows what
/// `smoother` makes of its new spectrum and its previous one; a channel that is new shows
/// its spectrum as it is; a channel that only `previous` has is dropped.
pub fn smooth<T, E, F>(
    previous: Vec<FrequencySpectrum<T>>,
    current: Vec<Result<FrequencySpectrum<T>, E>>,
    smoother: F,
) -> (frame: Vec<Result<FrequencySpectrum<T>, E>>) where
    F: Fn(&FrequencySpectrum<T>, &FrequencySpectrum<T>) -> FrequencySpectrum<T>,

    requires
        smoothable(previous@, current@, smoother),
    ensures
        frame@.len() == current@.len(),
        forall|channel: int|
            0 <= channel < current@.len() ==> smoothed_channel(
                previous@,
                channel,
                current@[channel],
                smoother,
                #[trigger] frame@[channel],
            ),
{
    let ghost old_frame = previous@;
    let ghost new_frame = current@;
    let pairs = zip_longest(previous, current);
    let ghost paired = pairs@;
    let mut frame: Vec<Result<FrequencySpectrum<T>, E>> = Vec::new();
    for pair in walk: pairs
        invariant
            walk.seq() == paired,
            paired == zip_longest_spec(old_frame, new_frame),
            smoothable(old_frame, new_frame, smoother),
            frame@.len() == if walk.index() <= new_frame.len() {
                walk.index()
            } else {
                new_frame.len() as int
            },
            forall|channel: int|
                0 <= channel < frame@.len() ==> smoothed_channel(
                    old_frame,
                    channel,
                    new_frame[channel],
                    smoother,
                    #[trigger] frame@[channel],
                ),
    {
        assert(pair == paired[walk.index() as int]);
        match pair {
            Pairing::Both(before, Ok(now)) => {
                assert(new_frame[walk.index() as int] == Ok::<FrequencySpectrum<T>, E>(now));
                let shown = smoother(&now, &before);
                frame.push(Ok(shown));
            },
            Pairing::Both(_, Err(error)) => {
                frame.push(Err(error));
            },
            Pairing::Left(_) => {},
            Pairing::Right(now) => {
                frame.push(now);
            },
        }
    }
    frame
}

/// That `value` may be read from `spectrum` at the fractional bin index `position`:
/// `split` gives the bins on either side and how far the position lies between them, a bin
/// that the spectrum lacks reads as `wrap`, and `value` interpolates between the two.
pub open spec fn reads_at<T: Scalar, P: Fn(T) -> (usize, usize, T)>(
    spectrum: &FrequencySpectrum<T>,
    position: T,
    split: &P,
    wrap: T,
    value: T,
) -> bool {
    exists|lower: usize, upper: usize, fract: T|
        {
            &&& #[trigger] call_ensures(*split, (position,), (lower, upper, fract))
            &&& is_lerp::<T, T, T, T, T, T>(
                read_or(spectrum.spec_get(lower), wrap),
                read_or(spectrum.spec_get(upper), wrap),
                fract,
                value,
            )
        }
}

/// Whether `spectrum` can be read at `position`: `split` takes the position, and the
/// interpolation can be evaluated for whatever bins and fraction it gives.
pub open spec fn read_admits<T: Scalar, P: Fn(T) -> (usize, usize, T)>(
    spectrum: &FrequencySpectrum<T>,
    position: T,
    split: &P,
    wrap: T,
) -> bool {
    &&& call_requires(*split, (position,))
    &&& forall|lower: usize, upper: usize, fract: T| #[trigger]
        call_ensures(*split, (position,), (lower, upper, fract)) ==> lerp_admits::<
            T,
            T,
            T,
            T,
            T,
            T,
        >(read_or(spectrum.spec_get(lower), wrap), read_or(spectrum.spec_get(upper), wrap), fract)
}

/// Reads `spectrum` at the fractional bin index `position`, interpolating between the two
/// bins around it. A bin that the spectrum lacks reads as `wrap`.
pub fn interpolated<T: Scalar, P: Fn(T) -> (usize, usize, T)>(
    spectrum: &FrequencySpectrum<T>,
    position: T,
    split: &P,
    wrap: T,
) -> (value: T)
    requires
        read_admits(spectrum, position, split, wrap),
    ensures
        reads_at(spectrum, position, split, wrap, value),
{
    let (lower, upper, fract) = split(position);
    let read = |bin: usize| -> (found: Option<T>)
        ensures
            found == spectrum.spec_get(bin),
        { spectrum.get(bin) };
    lerp_index_fn(read, lower, upper, fract, wrap)
}

/// That `value` may be read from `spectrum` at the frequency `hertz`: the frequency is
/// mapped to a fractional bin index on the scale of the spectrum, and the spectrum is
/// read there.
pub open spec fn holds_at<T: Scalar, S: Fn(usize) -> T, P: Fn(T) -> (usize, usize, T)>(
    spectrum: &FrequencySpectrum<T>,
    hertz: T,
    scalar: &S,
    split: &P,
    wrap: T,
    value: T,
) -> bool {
    exists|position: T|
        {
            &&& #[trigger] spectrum.maps_hertz_to_bin(hertz, scalar, position)
            &&& reads_at(spectrum, position, split, wrap, value)
        }
}

/// Whether `spectrum` can be read at the frequency `hertz`: the bin index of the
/// frequency can be computed, and the spectrum can be read at whatever index results.
pub open spec fn at_frequency_admits<T: Scalar, S: Fn(usize) -> T, P: Fn(T) -> (usize, usize, T)>(
    spectrum: &FrequencySpectrum<T>,
    hertz: T,
    scalar: &S,
    split: &P,
    wrap: T,
) -> bool {
    &&& spectrum.hertz_to_bin_admits(hertz, scalar)
    &&& forall|position: T| #[trigger]
        spectrum.maps_hertz_to_bin(hertz, scalar, position) ==> read_admits(
            spectrum,
            position,
            split,
            wrap,
        )
}

/// Reads `spectrum` at a frequency, interpolating between the two bins around the
/// fractional bin index of that frequency. A bin that the spectrum lacks reads as `wrap`.
pub fn at_frequency<T: Scalar, S: Fn(usize) -> T, P: Fn(T) -> (usize, usize, T)>(
    spectrum: &FrequencySpectrum<T>,
    frequency: Hertz<T>,
    scalar: &S,
    split: &P,
    wrap: T,
) -> (value: T)
    requires
        at_frequency_admits(spectrum, frequency.0, scalar, split, wrap),
    ensures
        holds_at(spectrum, frequency.0, scalar, split, wrap, value),
{
    let ghost hertz = frequency.0;
    let position = spectrum.hertz_to_bin(frequency, scalar);
    assert(spectrum.maps_hertz_to_bin(hertz, scalar, position));
    interpolated(spectrum, position, split, wrap)
}

/// That `value` may be read from `other` at the frequency of bin `bin` of `this`: the bin
/// is mapped to its frequency on the scale of `this`, and `other` is read at that
/// frequency.
pub open spec fn matches_frequency<T: Scalar, S: Fn(usize) -> T, P: Fn(T) -> (usize, usize, T)>(
    this: &FrequencySpectrum<T>,
    bin: usize,
    other: &FrequencySpectrum<T>,
    scalar: &S,
    split: &P,
    wrap: T,
    value: T,
) -> bool {
    exists|hertz: T|
        {
            &&& #[trigger] this.maps_bin_to_hertz(bin, scalar, hertz)
            &&& holds_at(other, hertz, scalar, split, wrap, value)
        }
}

/// Whether `other` can be read at the frequency of bin `bin` of `this`: the frequency of
/// the bin can be computed, and `other` can be read at whatever frequency results.
pub open spec fn match_admits<T: Scalar, S: Fn(usize) -> T, P: Fn(T) -> (usize, usize, T)>(
    this: &FrequencySpectrum<T>,
    bin: usize,
    other: &FrequencySpectrum<T>,
    scalar: &S,
    split: &P,
    wrap: T,
) -> bool {
    &&& this.bin_to_hertz_admits(bin, scalar)
    &&& forall|hertz: T| #[trigger]
        this.maps_bin_to_hertz(bin, scalar, hertz) ==> at_frequency_admits(
            other,
            hertz,
            scalar,
            split,
            wrap,
        )
}

/// That `value` is a blend for bin `bin` of the long-window spectrum: the bin's own value
/// moved towards what the short-window spectrum holds at the same frequency, by the
/// fraction `weight`.
pub open spec fn blends<T: Scalar, S: Fn(usize) -> T, P: Fn(T) -> (usize, usize, T)>(
    long_window: &FrequencySpectrum<T>,
    bin: usize,
    short_window: &FrequencySpectrum<T>,
    weight: T,
    scalar: &S,
    split: &P,
    wrap: T,
    value: T,
) -> bool {
    exists|matching: T|
        {
            &&& #[trigger] matches_frequency(
                long_window,
                bin,
                short_window,
                scalar,
                split,
                wrap,
                matching,
            )
            &&& bin < long_window@.len()
            &&& is_lerp::<T, T, T, T, T, T>(long_window@[bin as int], matching, weight, value)
        }
}

/// Whether the bin `bin` of the long-window spectrum can be blended: the short-window
/// spectrum can be read at its frequency, and whatever is read there can be interpolated
/// with the bin's own value.
pub open spec fn blend_admits<T: Scalar, S: Fn(usize) -> T, P: Fn(T) -> (usize, usize, T)>(
    long_window: &FrequencySpectrum<T>,
    bin: usize,
    value: T,
    short_window: &FrequencySpectrum<T>,
    weight: T,
    scalar: &S,
    split: &P,
    wrap: T,
) -> bool {
    &&& match_admits(long_window, bin, short_window, scalar, split, wrap)
    &&& forall|matching: T| #[trigger]
        matches_frequency(long_window, bin, short_window, scalar, split, wrap, matching)
            ==> lerp_admits::<T, T, T, T, T, T>(value, matching, weight)
}

/// Whether every bin of the long-window spectrum can be blended.
pub open spec fn resolution_blend_admits<
    T: Scalar,
    S: Fn(usize) -> T,
    P: Fn(T) -> (usize, usize, T),
>(
    long_window: &FrequencySpectrum<T>,
    short_window: &FrequencySpectrum<T>,
    weight: T,
    scalar: &S,
    split: &P,
    wrap: T,
) -> bool {
    forall|bin: int|
        0 <= bin < long_window@.len() ==> blend_admits(
            long_window,
            bin as usize,
            #[trigger] long_window@[bin],
            short_window,
            weight,
            scalar,
            split,
            wrap,
        )
}

/// That `blended` is a resolution blend of the two analyses: the sample rate and the bins
/// of the long-window spectrum, each bin blended as [`blends`] says.
pub open spec fn is_resolution_blend<T: Scalar, S: Fn(usize) -> T, P: Fn(T) -> (usize, usize, T)>(
    long_window: &FrequencySpectrum<T>,
    short_window: &FrequencySpectrum<T>,
    weight: T,
    scalar: &S,
    split: &P,
    wrap: T,
    blended: &FrequencySpectrum<T>,
) -> bool {
    &&& blended.spec_sample_rate() == long_window.spec_sample_rate()
    &&& blended@.len() == long_window@.len()
    &&& forall|bin: int|
        0 <= bin < long_window@.len() ==> blends(
            long_window,
            bin as usize,
            short_window,
            weight,
            scalar,
            split,
            wrap,
            #[trigger] blended@[bin],
        )
}

/// Blends the long-window analysis of a channel with the short-window one.
///
/// Every bin of the long-window spectrum is moved by the fraction `weight` towards the
/// value that the short-window spectrum has at the frequency of the bin, read by
/// interpolation, where a bin that is missing reads as `wrap`.
pub fn resolution_blend<T: Scalar, S: Fn(usize) -> T, P: Fn(T) -> (usize, usize, T)>(
    long_window: &FrequencySpectrum<T>,
    short_window: &FrequencySpectrum<T>,
    weight: T,
    scalar: &S,
    split: &P,
    wrap: T,
) -> (blended: FrequencySpectrum<T>)
    requires
        resolution_blend_admits(long_window, short_window, weight, scalar, split, wrap),
    ensures
        is_resolution_blend(long_window, short_window, weight, scalar, split, wrap, &blended),
{
    let reconciler = |this: &FrequencySpectrum<T>, bin: (Hertz<T>, T), other: &FrequencySpectrum<T>| -> (value: T)
        requires
            at_frequency_admits(other, bin.0.0, scalar, split, wrap),
            forall|matching: T| #[trigger]
                holds_at(other, bin.0.0, scalar, split, wrap, matching) ==> lerp_admits::<
                    T,
                    T,
                    T,
                    T,
                    T,
                    T,
                >(bin.1, matching, weight),
        ensures
            exists|matching: T|
                {
                    &&& #[trigger] holds_at(other, bin.0.0, scalar, split, wrap, matching)
                    &&& is_lerp::<T, T, T, T, T, T>(bin.1, matching, weight, value)
                },
        {
            let matching = at_frequency(other, bin.0, scalar, split, wrap);
            lerp(bin.1, matching, weight)
        };
    proof {
        long_window.lemma_len_bounded();
        assert forall|bin: int| 0 <= bin < long_window@.len() implies {
            &&& long_window.bin_to_hertz_admits(bin as usize, scalar)
            &&& forall|hertz: T| #[trigger]
                long_window.maps_bin_to_hertz(bin as usize, scalar, hertz) ==> call_requires(
                    reconciler,
                    (long_window, (Hertz(hertz), #[trigger] long_window@[bin]), short_window),
                )
        } by {
            assert(blend_admits(
                long_window,
                bin as usize,
                long_window@[bin],
                short_window,
                weight,
                scalar,
                split,
                wrap,
            ));
            assert forall|hertz: T| #[trigger]
                long_window.maps_bin_to_hertz(bin as usize, scalar, hertz) implies call_requires(
                reconciler,
                (long_window, (Hertz(hertz), long_window@[bin]), short_window),
            ) by {
                assert forall|matching: T| #[trigger]
                    holds_at(
                        short_window,
                        hertz,
                        scalar,
                        split,
                        wrap,
                        matching,
                    ) implies lerp_admits::<T, T, T, T, T, T>(
                    long_window@[bin],
                    matching,
                    weight,
                ) by {
                    assert(matches_frequency(
                        long_window,
                        bin as usize,
                        short_window,
                        scalar,
                        split,
                        wrap,
                        matching,
                    ));
                }
            }
        }
    }
    let blended = long_window.merge(short_window, scalar, reconciler);
    assert forall|bin: int| 0 <= bin < long_window@.len() implies blends(
        long_window,
        bin as usize,
        short_window,
        weight,
        scalar,
        split,
        wrap,
        #[trigger] blended@[bin],
    ) by {
        assert(long_window.reconciles(bin, short_window, scalar, reconciler, blended@[bin]));
        let hertz = choose|hertz: T|
            {
                &&& #[trigger] long_window.maps_bin_to_hertz(bin as usize, scalar, hertz)
                &&& call_ensures(
                    reconciler,
                    (long_window, (Hertz(hertz), long_window@[bin]), short_window),
                    blended@[bin],
                )
            };
        let matching = choose|matching: T|
            {
                &&& #[trigger] holds_at(short_window, hertz, scalar, split, wrap, matching)
                &&& is_lerp::<T, T, T, T, T, T>(long_window@[bin], matching, weight, blended@[bin])
            };
        assert(matches_frequency(
            long_window,
            bin as usize,
            short_window,
            scalar,
            split,
            wrap,
            matching,
        ));
    }
    blended
}

/// That `value` is what bin `bin` of `blended` shows after smoothing: what the previous
/// spectrum holds at the same frequency, moved towards the bin's own value by the
/// fraction `factor`.
pub open spec fn smooths<T: Scalar, S: Fn(usize) -> T, P: Fn(T) -> (usize, usize, T)>(
    blended: &FrequencySpectrum<T>,
    bin: usize,
    previous: &FrequencySpectrum<T>,
    factor: T,
    scalar: &S,
    split: &P,
    wrap: T,
    value: T,
) -> bool {
    exists|matching: T|
        {
            &&& #[trigger] matches_frequency(blended, bin, previous, scalar, split, wrap, matching)
            &&& bin < blended@.len()
            &&& is_lerp::<T, T, T, T, T, T>(matching, blended@[bin as int], factor, value)
        }
}

/// Whether the bin `bin` of `blended` can be smoothed: the previous spectrum can be read
/// at its frequency, and whatever is read there can be interpolated with the bin's value.
pub open spec fn smooth_admits<T: Scalar, S: Fn(usize) -> T, P: Fn(T) -> (usize, usize, T)>(
    blended: &FrequencySpectrum<T>,
    bin: usize,
    value: T,
    previous: &FrequencySpectrum<T>,
    factor: T,
    scalar: &S,
    split: &P,
    wrap: T,
) -> bool {
    &&& match_admits(blended, bin, previous, scalar, split, wrap)
    &&& forall|matching: T| #[trigger]
        matches_frequency(blended, bin, previous, scalar, split, wrap, matching) ==> lerp_admits::<
            T,
            T,
            T,
            T,
            T,
            T,
        >(matching, value, factor)
}

/// Whether every bin of `blended` can be smoothed against `previous`.
pub open spec fn temporal_smoothing_admits<
    T: Scalar,
    S: Fn(usize) -> T,
    P: Fn(T) -> (usize, usize, T),
>(
    blended: &FrequencySpectrum<T>,
    previous: &FrequencySpectrum<T>,
    factor: T,
    scalar: &S,
    split: &P,
    wrap: T,
) -> bool {
    forall|bin: int|
        0 <= bin < blended@.len() ==> smooth_admits(
            blended,
            bin as usize,
            #[trigger] blended@[bin],
            previous,
            factor,
            scalar,
            split,
            wrap,
        )
}

/// That `shown` is `blended` smoothed against `previous`: the sample rate and the bins of
/// `blended`, each bin smoothed as [`smooths`] says.
pub open spec fn is_temporal_smoothing<T: Scalar, S: Fn(usize) -> T, P: Fn(T) -> (usize, usize, T)>(
    blended: &FrequencySpectrum<T>,
    previous: &FrequencySpectrum<T>,
    factor: T,
    scalar: &S,
    split: &P,
    wrap: T,
    shown: &FrequencySpectrum<T>,
) -> bool {
    &&& shown.spec_sample_rate() == blended.spec_sample_rate()
    &&& shown@.len() == blended@.len()
    &&& forall|bin: int|
        0 <= bin < blended@.len() ==> smooths(
            blended,
            bin as usize,
            previous,
            factor,
            scalar,
            split,
            wrap,
            #[trigger] shown@[bin],
        )
}

/// Smooths the blend of this update against the spectrum that the channel showed before.
///
/// Every bin starts from the value that `previous` has at the frequency of the bin, read
/// by interpolation, and moves by the fraction `factor` towards the bin's value in
/// `blended`: a factor of zero keeps the previous value, a factor of one takes the new.
pub fn temporal_smoothing<T: Scalar, S: Fn(usize) -> T, P: Fn(T) -> (usize, usize, T)>(
    blended: &FrequencySpectrum<T>,
    previous: &FrequencySpectrum<T>,
    factor: T,
    scalar: &S,
    split: &P,
    wrap: T,
) -> (shown: FrequencySpectrum<T>)
    requires
        temporal_smoothing_admits(blended, previous, factor, scalar, split, wrap),
    ensures
        is_temporal_smoothing(blended, previous, factor, scalar, split, wrap, &shown),
{
    let reconciler = |this: &FrequencySpectrum<T>, bin: (Hertz<T>, T), old: &FrequencySpectrum<T>| -> (value: T)
        requires
            at_frequency_admits(old, bin.0.0, scalar, split, wrap),
            forall|matching: T| #[trigger]
                holds_at(old, bin.0.0, scalar, split, wrap, matching) ==> lerp_admits::<
                    T,
                    T,
                    T,
                    T,
                    T,
                    T,
                >(matching, bin.1, factor),
        ensures
            exists|matching: T|
                {
                    &&& #[trigger] holds_at(old, bin.0.0, scalar, split, wrap, matching)
                    &&& is_lerp::<T, T, T, T, T, T>(matching, bin.1, factor, value)
                },
        {
            let matching = at_frequency(old, bin.0, scalar, split, wrap);
            lerp(matching, bin.1, factor)
        };
    proof {
        blended.lemma_len_bounded();
        assert forall|bin: int| 0 <= bin < blended@.len() implies {
            &&& blended.bin_to_hertz_admits(bin as usize, scalar)
            &&& forall|hertz: T| #[trigger]
                blended.maps_bin_to_hertz(bin as usize, scalar, hertz) ==> call_requires(
                    reconciler,
                    (blended, (Hertz(hertz), #[trigger] blended@[bin]), previous),
                )
        } by {
            assert(smooth_admits(
                blended,
                bin as usize,
                blended@[bin],
                previous,
                factor,
                scalar,
                split,
                wrap,
            ));
            assert forall|hertz: T| #[trigger]
                blended.maps_bin_to_hertz(bin as usize, scalar, hertz) implies call_requires(
                reconciler,
                (blended, (Hertz(hertz), blended@[bin]), previous),
            ) by {
                assert forall|matching: T| #[trigger]
                    holds_at(previous, hertz, scalar, split, wrap, matching) implies lerp_admits::<
                    T,
                    T,
                    T,
                    T,
                    T,
                    T,
                >(matching, blended@[bin], factor) by {
                    assert(matches_frequency(
                        blended,
                        bin as usize,
                        previous,
                        scalar,
                        split,
                        wrap,
                        matching,
                    ));
                }
            }
        }
    }
    let shown = blended.merge(previous, scalar, reconciler);
    assert forall|bin: int| 0 <= bin < blended@.len() implies smooths(
        blended,
        bin as usize,
        previous,
        factor,
        scalar,
        split,
        wrap,
        #[trigger] shown@[bin],
    ) by {
        assert(blended.reconciles(bin, previous, scalar, reconciler, shown@[bin]));
        let hertz = choose|hertz: T|
            {
                &&& #[trigger] blended.maps_bin_to_hertz(bin as usize, scalar, hertz)
                &&& call_ensures(
                    reconciler,
                    (blended, (Hertz(hertz), blended@[bin]), previous),
                    shown@[bin],
                )
            };
        let matching = choose|matching: T|
            {
                &&& #[trigger] holds_at(previous, hertz, scalar, split, wrap, matching)
                &&& is_lerp::<T, T, T, T, T, T>(matching, blended@[bin], factor, shown@[bin])
            };
        assert(matches_frequency(blended, bin as usize, previous, scalar, split, wrap, matching));
    }
    shown
}

/// Smoothing boundary, no time elapsed: with a factor by which no interpolation leaves
/// its start, every bin shows what the previous spectrum holds at the frequency of the
/// bin.
pub proof fn lemma_resting_factor_keeps_previous<
    T: Scalar,
    S: Fn(usize) -> T,
    P: Fn(T) -> (usize, usize, T),
>(
    blended: &FrequencySpectrum<T>,
    previous: &FrequencySpectrum<T>,
    factor: T,
    scalar: &S,
    split: &P,
    wrap: T,
    shown: &FrequencySpectrum<T>,
)
    requires
        forall|from: T, to: T, r: T| #[trigger]
            is_lerp::<T, T, T, T, T, T>(from, to, factor, r) ==> r == from,
        is_temporal_smoothing(blended, previous, factor, scalar, split, wrap, shown),
    ensures
        shown@.len() == blended@.len(),
        forall|bin: int|
            0 <= bin < blended@.len() ==> matches_frequency(
                blended,
                bin as usize,
                previous,
                scalar,
                split,
                wrap,
                #[trigger] shown@[bin],
            ),
{
    assert forall|bin: int| 0 <= bin < blended@.len() implies matches_frequency(
        blended,
        bin as usize,
        previous,
        scalar,
        split,
        wrap,
        #[trigger] shown@[bin],
    ) by {
        assert(smooths(blended, bin as usize, previous, factor, scalar, split, wrap, shown@[bin]));
    }
}

/// Whether the two spectra share one scale on which every bin is read back exactly: the
/// frequency of a bin of `this` maps to the number of that same bin on the scale of
/// `other`, and `split` finds that number to lie on the bin itself, at a fraction by which
/// no interpolation leaves its start.
pub open spec fn reads_back_exactly<T: Scalar, S: Fn(usize) -> T, P: Fn(T) -> (usize, usize, T)>(
    this: &FrequencySpectrum<T>,
    other: &FrequencySpectrum<T>,
    scalar: &S,
    split: &P,
) -> bool {
    &&& other@.len() == this@.len()
    &&& forall|bin: int, hertz: T, position: T|
        0 <= bin < this@.len() && #[trigger] this.maps_bin_to_hertz(bin as usize, scalar, hertz)
            && #[trigger] other.maps_hertz_to_bin(hertz, scalar, position) ==> call_ensures(
            *scalar,
            (bin as usize,),
            position,
        )
    &&& forall|bin: usize, position: T, lower: usize, upper: usize, fract: T|
        #[trigger] call_ensures(*scalar, (bin,), position) && #[trigger] call_ensures(
            *split,
            (position,),
            (lower, upper, fract),
        ) ==> {
            &&& lower == bin
            &&& forall|from: T, to: T, r: T| #[trigger]
                is_lerp::<T, T, T, T, T, T>(from, to, fract, r) ==> r == from
        }
}

/// Smoothing boundary, no time elapsed, on spectra of one shape: with a factor by which no
/// interpolation leaves its start, and a scale on which every bin is read back exactly,
/// the smoothed spectrum has the bins of the previous one.
pub proof fn lemma_resting_factor_shows_previous<
    T: Scalar,
    S: Fn(usize) -> T,
    P: Fn(T) -> (usize, usize, T),
>(
    blended: &FrequencySpectrum<T>,
    previous: &FrequencySpectrum<T>,
    factor: T,
    scalar: &S,
    split: &P,
    wrap: T,
    shown: &FrequencySpectrum<T>,
)
    requires
        forall|from: T, to: T, r: T| #[trigger]
            is_lerp::<T, T, T, T, T, T>(from, to, factor, r) ==> r == from,
        reads_back_exactly(blended, previous, scalar, split),
        is_temporal_smoothing(blended, previous, factor, scalar, split, wrap, shown),
    ensures
        shown@ == previous@,
{
    lemma_resting_factor_keeps_previous(blended, previous, factor, scalar, split, wrap, shown);
    blended.lemma_len_bounded();
    assert forall|bin: int| 0 <= bin < blended@.len() implies shown@[bin] == previous@[bin] by {
        let value = shown@[bin];
        assert(matches_frequency(blended, bin as usize, previous, scalar, split, wrap, value));
        let hertz = choose|hertz: T|
            {
                &&& #[trigger] blended.maps_bin_to_hertz(bin as usize, scalar, hertz)
                &&& holds_at(previous, hertz, scalar, split, wrap, value)
            };
        let position = choose|position: T|
            {
                &&& #[trigger] previous.maps_hertz_to_bin(hertz, scalar, position)
                &&& reads_at(previous, position, split, wrap, value)
            };
        assert(call_ensures(*scalar, (bin as usize,), position));
        let (lower, upper, fract) = choose|lower: usize, upper: usize, fract: T|
            {
                &&& #[trigger] call_ensures(*split, (position,), (lower, upper, fract))
                &&& is_lerp::<T, T, T, T, T, T>(
                    read_or(previous.spec_get(lower), wrap),
                    read_or(previous.spec_get(upper), wrap),
                    fract,
                    value,
                )
            };
        assert(lower == bin as usize);
    }
    assert(shown@ =~= previous@);
}

/// Smoothing boundary, long time elapsed: with a factor by which every interpolation
/// arrives at its end, the smoothed spectrum has the bins of the new blend.
pub proof fn lemma_full_factor_takes_blend<
    T: Scalar,
    S: Fn(usize) -> T,
    P: Fn(T) -> (usize, usize, T),
>(
    blended: &FrequencySpectrum<T>,
    previous: &FrequencySpectrum<T>,
    factor: T,
    scalar: &S,
    split: &P,
    wrap: T,
    shown: &FrequencySpectrum<T>,
)
    requires
        forall|from: T, to: T, r: T| #[trigger]
            is_lerp::<T, T, T, T, T, T>(from, to, factor, r) ==> r == to,
        is_temporal_smoothing(blended, previous, factor, scalar, split, wrap, shown),
    ensures
        shown@ == blended@,
        shown.spec_sample_rate() == blended.spec_sample_rate(),
{
    blended.lemma_len_bounded();
    assert forall|bin: int| 0 <= bin < blended@.len() implies shown@[bin] == blended@[bin] by {
        assert(smooths(blended, bin as usize, previous, factor, scalar, split, wrap, shown@[bin]));
    }
    assert(shown@ =~= blended@);
}

/// Whether a frame can be composed: every channel that was analysed can be blended, and
/// whatever blend results for a channel that the previous frame has too can be smoothed
/// against that channel's previous spectrum.
pub open spec fn compose_admits<T: Scalar, E, S: Fn(usize) -> T, P: Fn(T) -> (usize, usize, T)>(
    previous: Seq<FrequencySpectrum<T>>,
    analyses: Seq<Result<ChannelAnalysis<T>, E>>,
    weight: T,
    factor: T,
    scalar: &S,
    split: &P,
    wrap: T,
) -> bool {
    forall|channel: int|
        0 <= channel < analyses.len() ==> match #[trigger] analyses[channel] {
            Ok(analysis) => {
                &&& resolution_blend_admits(
                    &analysis.long_window,
                    &analysis.short_window,
                    weight,
                    scalar,
                    split,
                    wrap,
                )
                &&& channel < previous.len() ==> forall|blended: FrequencySpectrum<T>| #[trigger]
                    is_resolution_blend(
                        &analysis.long_window,
                        &analysis.short_window,
                        weight,
                        scalar,
                        split,
                        wrap,
                        &blended,
                    ) ==> temporal_smoothing_admits(
                        &blended,
                        &previous[channel],
                        factor,
                        scalar,
                        split,
                        wrap,
                    )
            },
            Err(_) => true,
        }
}

/// That `shown` is what a channel displays after an update with the given analyses: a
/// resolution blend of the two, smoothed against the channel's spectrum in the previous
/// frame where there is one.
pub open spec fn composed_channel<T: Scalar, S: Fn(usize) -> T, P: Fn(T) -> (usize, usize, T)>(
    previous: Seq<FrequencySpectrum<T>>,
    channel: int,
    analysis: ChannelAnalysis<T>,
    weight: T,
    factor: T,
    scalar: &S,
    split: &P,
    wrap: T,
    shown: FrequencySpectrum<T>,
) -> bool {
    exists|blended: FrequencySpectrum<T>|
        {
            &&& #[trigger] is_resolution_blend(
                &analysis.long_window,
                &analysis.short_window,
                weight,
                scalar,
                split,
                wrap,
                &blended,
            )
            &&& if channel < previous.len() {
                is_temporal_smoothing(
                    &blended,
                    &previous[channel],
                    factor,
                    scalar,
                    split,
                    wrap,
                    &shown,
                )
            } else {
                shown == blended
            }
        }
}

/// That `shown` is the entry of a channel in the frame of an update: the failure of its
/// analysis where that failed, and otherwise what [`composed_channel`] says.
pub open spec fn composed_outcome<
    T: Scalar,
    E,
    S: Fn(usize) -> T,
    P: Fn(T) -> (usize, usize, T),
>(
    previous: Seq<FrequencySpectrum<T>>,
    channel: int,
    analysis: Result<ChannelAnalysis<T>, E>,
    weight: T,
    factor: T,
    scalar: &S,
    split: &P,
    wrap: T,
    shown: Result<FrequencySpectrum<T>, E>,
) -> bool {
    match analysis {
        Ok(analysed) => {
            &&& shown matches Ok(spectrum)
            &&& composed_channel(
                previous,
                channel,
                analysed,
                weight,
                factor,
                scalar,
                split,
                wrap,
                spectrum,
            )
        },
        Err(error) => shown == Err::<FrequencySpectrum<T>, E>(error),
    }
}

/// Produces the frame to show after an update: one entry for each channel, in order.
///
/// For each channel the two analyses are blended as [`resolution_blend`] does, with the
/// given `weight`. The blend of a channel that the previous frame has too is smoothed
/// against its previous spectrum as [`temporal_smoothing`] does, with the given `factor`;
/// the blend of a new channel is shown as it is; a channel that is gone is dropped.
///
/// A failed analysis is never replaced by an older spectrum: the entry of that channel is
/// its failure, for the caller to deal with, and the other channels are composed as if it
/// had not happened.
pub fn compose<T: Scalar, E, S: Fn(usize) -> T, P: Fn(T) -> (usize, usize, T)>(
    previous: Vec<FrequencySpectrum<T>>,
    analyses: Vec<Result<ChannelAnalysis<T>, E>>,
    weight: T,
    factor: T,
    scalar: &S,
    split: &P,
    wrap: T,
) -> (frame: Vec<Result<FrequencySpectrum<T>, E>>)
    requires
        compose_admits(previous@, analyses@, weight, factor, scalar, split, wrap),
    ensures
        frame@.len() == analyses@.len(),
        forall|channel: int|
            0 <= channel < analyses@.len() ==> composed_outcome(
                previous@,
                channel,
                analyses@[channel],
                weight,
                factor,
                scalar,
                split,
                wrap,
                #[trigger] frame@[channel],
            ),
{
    let ghost given = analyses@;
    let mut blends: Vec<Result<FrequencySpectrum<T>, E>> = Vec::new();
    for analysis in walk: analyses
        invariant
            walk.seq() == given,
            compose_admits(previous@, given, weight, factor, scalar, split, wrap),
            blends@.len() == walk.index(),
            forall|channel: int|
                0 <= channel < blends@.len() ==> match given[channel] {
                    Ok(analysed) => {
                        &&& (#[trigger] blends@[channel]) matches Ok(blended)
                        &&& is_resolution_blend(
                            &analysed.long_window,
                            &analysed.short_window,
                            weight,
                            scalar,
                            split,
                            wrap,
                            &blended,
                        )
                    },
                    Err(error) => blends@[channel] == Err::<FrequencySpectrum<T>, E>(error),
                },
    {
        assert(analysis == given[walk.index() as int]);
        match analysis {
            Ok(analysed) => {
                let blended = resolution_blend(
                    &analysed.long_window,
                    &analysed.short_window,
                    weight,
                    scalar,
                    split,
                    wrap,
                );
                blends.push(Ok(blended));
            },
            Err(error) => {
                blends.push(Err(error));
            },
        }
    }
    let ghost blended = blends@;
    let smoother = |now: &FrequencySpectrum<T>, before: &FrequencySpectrum<T>| -> (shown:
        FrequencySpectrum<T>)
        requires
            temporal_smoothing_admits(now, before, factor, scalar, split, wrap),
        ensures
            is_temporal_smoothing(now, before, factor, scalar, split, wrap, &shown),
        { temporal_smoothing(now, before, factor, scalar, split, wrap) };
    proof {
        assert forall|channel: int|
            0 <= channel < previous@.len() && channel < blended.len() implies (
        #[trigger] blended[channel] matches Ok(now) ==> call_requires(
            smoother,
            (&now, &previous@[channel]),
        )) by {
            assert(given[channel] is Ok || given[channel] is Err);
        }
    }
    let frame = smooth(previous, blends, smoother);
    assert forall|channel: int| 0 <= channel < given.len() implies composed_outcome(
        previous@,
        channel,
        given[channel],
        weight,
        factor,
        scalar,
        split,
        wrap,
        #[trigger] frame@[channel],
    ) by {
        assert(smoothed_channel(previous@, channel, blended[channel], smoother, frame@[channel]));
        match given[channel] {
            Ok(analysed) => {
                let blend = blended[channel]->Ok_0;
                assert(is_resolution_blend(
                    &analysed.long_window,
                    &analysed.short_window,
                    weight,
                    scalar,
                    split,
                    wrap,
                    &blend,
                ));
            },
            Err(_) => {},
        }
    }
    frame
}

} // verus!

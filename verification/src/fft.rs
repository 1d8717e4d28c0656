//! Channel snapshots and frequency spectra.
//!
//! An [`AudioView`] is a finished copy of one channel's recent samples; a
//! [`FrequencySpectrum`] is the sequence of magnitudes that an analysis of such a view
//! produced. Both are generic over the number type of their values. What arithmetic there
//! is runs on the operators of that type; what no operator provides, such as the weights
//! of a window, the transform itself or the conversion of a count to a number, is handed
//! in by the caller.

use crate::numtools::{
    apply_window, is_scaled_ratio, is_windowed, scaled_ratio, scaled_ratio_admits, window_admits,
    Scalar,
};
use std::ops::{Mul, Range};
use vstd::prelude::*;

verus! {

/// An immutable, fixed-length copy of one channel's samples, newest first.
pub struct AudioView<T> {
    samples: Vec<T>,
    sample_rate: u32,
}

impl<T> View for AudioView<T> {
    type V = Seq<T>;

    closed spec fn view(&self) -> Seq<T> {
        self.samples@
    }
}

impl<T: Copy> AudioView<T> {
    /// The rate, in samples per second, at which the samples were taken.
    pub closed spec fn spec_sample_rate(&self) -> u32 {
        self.sample_rate
    }

    /// Wraps `data` as the samples of a channel captured at `sample_rate`.
    pub fn new(sample_rate: u32, data: Vec<T>) -> (view: Self)
        ensures
            view@ == data@,
            view.spec_sample_rate() == sample_rate,
    {
        Self { samples: data, sample_rate }
    }

    /// The samples at the positions `range.start..range.end`, as a view of their own.
    pub fn subview(&self, range: Range<usize>) -> (view: AudioView<T>)
        requires
            range.start <= range.end <= self@.len(),
        ensures
            view@ == self@.subrange(range.start as int, range.end as int),
            view.spec_sample_rate() == self.spec_sample_rate(),
    {
        let mut samples: Vec<T> = Vec::new();
        let mut i: usize = range.start;
        while i < range.end
            invariant
                range.start <= i <= range.end <= self.samples@.len(),
                samples@ == self.samples@.subrange(range.start as int, i as int),
            decreases range.end - i,
        {
            samples.push(self.samples[i]);
            i += 1;
        }
        AudioView { samples, sample_rate: self.sample_rate }
    }

    /// The number of samples in the view.
    pub fn len(&self) -> (n: usize)
        ensures
            n == self@.len(),
    {
        self.samples.len()
    }

    /// The rate, in samples per second, at which the samples were taken.
    #[verifier::when_used_as_spec(spec_sample_rate)]
    pub fn sample_rate(&self) -> (rate: u32)
        ensures
            rate == self.spec_sample_rate(),
    {
        self.sample_rate
    }

    /// The samples, newest first.
    pub fn samples(&self) -> (samples: &Vec<T>)
        ensures
            samples@ == self@,
    {
        &self.samples
    }
}

/// Why no spectrum could be made of a view.
pub enum SpectrumError<E> {
    /// The samples are guarded by a lock that was poisoned. Raised by hosts that share
    /// their samples between threads, never by this library.
    SampleMutexPoisoned,
    /// The transform rejected the samples.
    ConversionFailed(E),
}

impl<E> SpectrumError<E> {
    /// The text that tells a developer what went wrong.
    pub fn detail(&self) -> (text: String)
        ensures
            text@ == match self {
                SpectrumError::SampleMutexPoisoned =>
                    "could not acquire samples mutex because the lock is poisoned"@,
                SpectrumError::ConversionFailed(_) => "an error occurred while performing the fft"@,
            },
    {
        match self {
            SpectrumError::SampleMutexPoisoned => {
                "could not acquire samples mutex because the lock is poisoned".to_owned()
            },
            SpectrumError::ConversionFailed(_) => {
                "an error occurred while performing the fft".to_owned()
            },
        }
    }

    /// The text that tells a person what went wrong.
    pub fn message(&self) -> (text: String)
        ensures
            text@ == match self {
                SpectrumError::SampleMutexPoisoned =>
                    "a previous error prevents us from listening to audio"@,
                SpectrumError::ConversionFailed(_) =>
                    "something went wrong while analysing the audio"@,
            },
    {
        match self {
            SpectrumError::SampleMutexPoisoned => {
                "a previous error prevents us from listening to audio".to_owned()
            },
            SpectrumError::ConversionFailed(_) => {
                "something went wrong while analysing the audio".to_owned()
            },
        }
    }
}

/// That `bins` holds the magnitude of each bin of `transformed`, as `magnitude` finds it
/// for a window of `size` samples.
pub open spec fn is_magnitudes<T, C, M>(
    transformed: Seq<C>,
    size: usize,
    magnitude: &M,
    bins: Seq<T>,
) -> bool where M: Fn(&C, usize) -> T {
    &&& bins.len() == transformed.len()
    &&& forall|i: int|
        0 <= i < transformed.len() ==> call_ensures(
            *magnitude,
            (&transformed[i], size),
            #[trigger] bins[i],
        )
}

impl<T: Copy> AudioView<T> {
    /// The number of bins that the analysis of a window of `size` samples has: one for each
    /// frequency from zero up to the Nyquist frequency.
    pub open spec fn bin_count(size: nat) -> nat {
        size / 2 + 1
    }

    /// Whether the view can be analysed with the given window, transform and magnitude:
    /// the window can be applied to the samples, the transform takes whatever the window
    /// leaves and returns, where it succeeds, one bin for each frequency from zero up to
    /// the Nyquist frequency, and the magnitude can be taken of every such bin.
    pub open spec fn analysable<X, C, E, W, F, M>(
        &self,
        weight: &W,
        transform: F,
        magnitude: &M,
    ) -> bool where
        T: Mul<X, Output = T>,
        W: Fn(usize, usize) -> X,
        F: FnOnce(Vec<T>) -> Result<Vec<C>, E>,
        M: Fn(&C, usize) -> T,
     {
        &&& window_admits::<T, X, W>(self@, self@.len() as usize, weight)
        &&& forall|windowed: Vec<T>| #[trigger]
            is_windowed(self@, self@.len() as usize, weight, windowed@) ==> call_requires(
                transform,
                (windowed,),
            )
        &&& forall|windowed: Vec<T>, output: Vec<C>|
            is_windowed(self@, self@.len() as usize, weight, windowed@) && #[trigger] call_ensures(
                transform,
                (windowed,),
                Ok::<Vec<C>, E>(output),
            ) ==> {
                &&& output@.len() == Self::bin_count(self@.len())
                &&& forall|i: int|
                    0 <= i < output@.len() ==> #[trigger] call_requires(
                        *magnitude,
                        (&output@[i], self@.len() as usize),
                    )
            }
    }

    /// That `outcome` is a result of analysing the view: the transform was handed the
    /// windowed samples; where it failed, `outcome` is its error as a conversion failure;
    /// where it succeeded, `outcome` is a spectrum at the sample rate of the view, with one
    /// bin for each frequency from zero up to the Nyquist frequency, whose bins are the
    /// magnitudes of what the transform returned.
    pub open spec fn analyses_to<X, C, E, W, F, M>(
        &self,
        weight: &W,
        transform: F,
        magnitude: &M,
        outcome: Result<FrequencySpectrum<T>, SpectrumError<E>>,
    ) -> bool where
        T: Mul<X, Output = T>,
        W: Fn(usize, usize) -> X,
        F: FnOnce(Vec<T>) -> Result<Vec<C>, E>,
        M: Fn(&C, usize) -> T,
     {
        exists|windowed: Vec<T>, transformed: Result<Vec<C>, E>|
            {
                &&& is_windowed(self@, self@.len() as usize, weight, windowed@)
                &&& #[trigger] call_ensures(transform, (windowed,), transformed)
                &&& match transformed {
                    Ok(output) => {
                        &&& outcome matches Ok(spectrum)
                        &&& spectrum.spec_sample_rate() == self.spec_sample_rate()
                        &&& spectrum@.len() == Self::bin_count(self@.len())
                        &&& is_magnitudes(output@, self@.len() as usize, magnitude, spectrum@)
                    },
                    Err(error) => outcome == Err::<FrequencySpectrum<T>, SpectrumError<E>>(
                        SpectrumError::ConversionFailed(error),
                    ),
                }
            }
    }

    /// Turns the view into a frequency spectrum.
    ///
    /// The samples are copied, so that the view stays as it is. The copy is windowed: the
    /// sample at position `i` of `N` is multiplied by `weight(i, N)`. `transform` then
    /// turns the windowed samples into `N / 2 + 1` frequency bins, `magnitude(bin, N)`
    /// gives the magnitude of each, and the magnitudes become a spectrum at the sample rate
    /// of the view. A failure of the transform is handed on, never replaced by a spectrum.
    pub fn analyze<X, C, E, W, F, M>(&self, weight: &W, transform: F, magnitude: &M) -> (outcome:
        Result<FrequencySpectrum<T>, SpectrumError<E>>) where
        T: Mul<X, Output = T>,
        W: Fn(usize, usize) -> X,
        F: FnOnce(Vec<T>) -> Result<Vec<C>, E>,
        M: Fn(&C, usize) -> T,

        requires
            self.analysable(weight, transform, magnitude),
        ensures
            self.analyses_to(weight, transform, magnitude, outcome),
    {
        let fft_size = self.samples.len();
        let mut input: Vec<T> = Vec::new();
        let mut i: usize = 0;
        while i < fft_size
            invariant
                i <= fft_size == self.samples@.len(),
                input@ == self.samples@.take(i as int),
            decreases fft_size - i,
        {
            input.push(self.samples[i]);
            i += 1;
        }
        assert(self.samples@.take(fft_size as int) =~= self.samples@);
        apply_window(&mut input, fft_size, weight);
        let ghost windowed = input;
        let transformed = transform(input);
        match transformed {
            Ok(output) => {
                let mut bins: Vec<T> = Vec::new();
                let mut k: usize = 0;
                while k < output.len()
                    invariant
                        k <= output@.len(),
                        bins@.len() == k,
                        forall|i: int|
                            0 <= i < output@.len() ==> #[trigger] call_requires(
                                *magnitude,
                                (&output@[i], fft_size),
                            ),
                        forall|j: int|
                            0 <= j < k ==> call_ensures(
                                *magnitude,
                                (&output@[j], fft_size),
                                #[trigger] bins@[j],
                            ),
                    decreases output@.len() - k,
                {
                    bins.push(magnitude(&output[k], fft_size));
                    k += 1;
                }
                let outcome = Ok(FrequencySpectrum { bins, sample_rate: self.sample_rate });
                assert(call_ensures(transform, (windowed,), transformed));
                outcome
            },
            Err(error) => {
                assert(call_ensures(transform, (windowed,), transformed));
                Err(SpectrumError::ConversionFailed(error))
            },
        }
    }
}

/// Magnitudes per frequency bin, from 0 Hz up to half the sample rate.
#[derive(Clone)]
pub struct FrequencySpectrum<T> {
    bins: Vec<T>,
    sample_rate: u32,
}

impl<T> View for FrequencySpectrum<T> {
    type V = Seq<T>;

    closed spec fn view(&self) -> Seq<T> {
        self.bins@
    }
}

impl<T> FrequencySpectrum<T> {
    /// The sample rate of the signal that the spectrum was computed from.
    pub closed spec fn spec_sample_rate(&self) -> u32 {
        self.sample_rate
    }

    /// The bins of a spectrum can be counted by a `usize`.
    pub proof fn lemma_len_bounded(&self)
        ensures
            self@.len() <= usize::MAX,
    {
        assert(self.bins.len() == self.bins@.len());
    }

    /// The magnitude in bin `bin`, if the spectrum has such a bin.
    pub open spec fn spec_get(&self, bin: usize) -> Option<T> {
        if bin < self@.len() {
            Some(self@[bin as int])
        } else {
            None
        }
    }
}

impl<T: Copy> FrequencySpectrum<T> {
    /// A spectrum with the given magnitudes, computed from a signal sampled at `sample_rate`.
    pub fn new(bins: Vec<T>, sample_rate: u32) -> (spectrum: Self)
        ensures
            spectrum@ == bins@,
            spectrum.spec_sample_rate() == sample_rate,
    {
        Self { bins, sample_rate }
    }

    /// The magnitude in bin `bin`, if the spectrum has such a bin.
    pub fn get(&self, bin: usize) -> (value: Option<T>)
        ensures
            value == self.spec_get(bin),
    {
        if bin < self.bins.len() {
            Some(self.bins[bin])
        } else {
            None
        }
    }

    /// The number of bins.
    pub fn len(&self) -> (n: usize)
        ensures
            n == self@.len(),
    {
        self.bins.len()
    }

    /// The sample rate of the signal that the spectrum was computed from.
    pub fn sample_rate(&self) -> (rate: u32)
        ensures
            rate == self.spec_sample_rate(),
    {
        self.sample_rate
    }

    /// Half the sample rate, rounded down: the highest frequency that the spectrum covers.
    pub fn nyquist_frequency(&self) -> (nyquist: u32)
        ensures
            nyquist == self.spec_sample_rate() / 2,
    {
        self.sample_rate / 2
    }
}

/// A frequency in cycles per second.
pub struct Hertz<T>(pub T);

impl<T: Scalar> FrequencySpectrum<T> {
    /// The Nyquist frequency as a count that `scalar` can convert.
    pub open spec fn nyquist_count(&self) -> usize {
        (self.spec_sample_rate() / 2) as usize
    }

    /// That `hertz` is a frequency that `bin_to_hertz` may find for `bin`:
    /// `bin / bin_count * nyquist`, each of the three counts as `scalar` converts it.
    pub open spec fn maps_bin_to_hertz<S: Fn(usize) -> T>(
        &self,
        bin: usize,
        scalar: &S,
        hertz: T,
    ) -> bool {
        exists|position: T, count: T, nyquist: T|
            {
                &&& #[trigger] is_scaled_ratio(position, count, nyquist, hertz)
                &&& call_ensures(*scalar, (bin,), position)
                &&& call_ensures(*scalar, (self@.len() as usize,), count)
                &&& call_ensures(*scalar, (self.nyquist_count(),), nyquist)
            }
    }

    /// Whether the frequency of `bin` can be computed: `scalar` converts the three counts,
    /// and `bin / bin_count * nyquist` can be evaluated for whatever it makes of them.
    pub open spec fn bin_to_hertz_admits<S: Fn(usize) -> T>(&self, bin: usize, scalar: &S) -> bool {
        &&& call_requires(*scalar, (bin,))
        &&& call_requires(*scalar, (self@.len() as usize,))
        &&& call_requires(*scalar, (self.nyquist_count(),))
        &&& forall|position: T, count: T, nyquist: T|
            call_ensures(*scalar, (bin,), position) && call_ensures(
                *scalar,
                (self@.len() as usize,),
                count,
            ) && call_ensures(*scalar, (self.nyquist_count(),), nyquist)
                ==> #[trigger] scaled_ratio_admits(position, count, nyquist)
    }

    /// That `position` is a fractional bin index that `hertz_to_bin` may find for `hertz`:
    /// `hertz / nyquist * bin_count`, each of the two counts as `scalar` converts it.
    pub open spec fn maps_hertz_to_bin<S: Fn(usize) -> T>(
        &self,
        hertz: T,
        scalar: &S,
        position: T,
    ) -> bool {
        exists|nyquist: T, count: T|
            {
                &&& #[trigger] is_scaled_ratio(hertz, nyquist, count, position)
                &&& call_ensures(*scalar, (self.nyquist_count(),), nyquist)
                &&& call_ensures(*scalar, (self@.len() as usize,), count)
            }
    }

    /// Whether the bin index of `hertz` can be computed: `scalar` converts the two counts,
    /// and `hertz / nyquist * bin_count` can be evaluated for whatever it makes of them.
    pub open spec fn hertz_to_bin_admits<S: Fn(usize) -> T>(&self, hertz: T, scalar: &S) -> bool {
        &&& call_requires(*scalar, (self.nyquist_count(),))
        &&& call_requires(*scalar, (self@.len() as usize,))
        &&& forall|nyquist: T, count: T|
            call_ensures(*scalar, (self.nyquist_count(),), nyquist) && call_ensures(
                *scalar,
                (self@.len() as usize,),
                count,
            ) ==> #[trigger] scaled_ratio_admits(hertz, nyquist, count)
    }

    /// The fractional bin index that corresponds to a frequency, on the linear scale that
    /// puts the Nyquist frequency at the bin count: `hertz / nyquist * bin_count`.
    ///
    /// `scalar` converts a count to the number type of the bins.
    pub fn hertz_to_bin<S: Fn(usize) -> T>(&self, hertz: Hertz<T>, scalar: &S) -> (position: T)
        requires
            self.hertz_to_bin_admits(hertz.0, scalar),
        ensures
            self.maps_hertz_to_bin(hertz.0, scalar, position),
    {
        let nyquist = scalar(self.nyquist_frequency() as usize);
        let count = scalar(self.bins.len());
        assert(scaled_ratio_admits(hertz.0, nyquist, count));
        scaled_ratio(hertz.0, nyquist, count)
    }

    /// The frequency that corresponds to a bin, on the linear scale that puts the bin
    /// count at the Nyquist frequency: `bin / bin_count * nyquist`.
    ///
    /// `scalar` converts a count to the number type of the bins.
    pub fn bin_to_hertz<S: Fn(usize) -> T>(&self, bin: usize, scalar: &S) -> (hertz: Hertz<T>)
        requires
            self.bin_to_hertz_admits(bin, scalar),
        ensures
            self.maps_bin_to_hertz(bin, scalar, hertz.0),
    {
        let position = scalar(bin);
        let count = scalar(self.bins.len());
        let nyquist = scalar(self.nyquist_frequency() as usize);
        assert(scaled_ratio_admits(position, count, nyquist));
        Hertz(scaled_ratio(position, count, nyquist))
    }

    /// That `merged` is an outcome of merging `self` with `other` under `reconciler`: it has
    /// the sample rate and the bin count of `self`, and each of its bins is a value that
    /// `reconciler` may return for the frequency and the value of the bin of `self` at the
    /// same index.
    pub open spec fn merges_into<S, R>(
        &self,
        other: &FrequencySpectrum<T>,
        scalar: &S,
        reconciler: R,
        merged: &FrequencySpectrum<T>,
    ) -> bool where
        S: Fn(usize) -> T,
        R: Fn(&FrequencySpectrum<T>, (Hertz<T>, T), &FrequencySpectrum<T>) -> T,
     {
        &&& merged.spec_sample_rate() == self.spec_sample_rate()
        &&& merged@.len() == self@.len()
        &&& forall|i: int|
            0 <= i < self@.len() ==> self.reconciles(
                i,
                other,
                scalar,
                reconciler,
                #[trigger] merged@[i],
            )
    }

    /// That `value` is an outcome of `reconciler` for bin `i` of `self`: of a call with
    /// `self`, a frequency that the bin maps to together with the value of the bin, and
    /// `other`.
    pub open spec fn reconciles<S, R>(
        &self,
        i: int,
        other: &FrequencySpectrum<T>,
        scalar: &S,
        reconciler: R,
        value: T,
    ) -> bool where
        S: Fn(usize) -> T,
        R: Fn(&FrequencySpectrum<T>, (Hertz<T>, T), &FrequencySpectrum<T>) -> T,
     {
        exists|hertz: T|
            {
                &&& #[trigger] self.maps_bin_to_hertz(i as usize, scalar, hertz)
                &&& call_ensures(reconciler, (self, (Hertz(hertz), self@[i]), other), value)
            }
    }

    /// Whether `self` can be merged with `other`: the frequency of every bin can be
    /// computed, and `reconciler` can be called with whatever frequency results.
    pub open spec fn reconcilable<S, R>(
        &self,
        other: &FrequencySpectrum<T>,
        scalar: &S,
        reconciler: R,
    ) -> bool where
        S: Fn(usize) -> T,
        R: Fn(&FrequencySpectrum<T>, (Hertz<T>, T), &FrequencySpectrum<T>) -> T,
     {
        forall|i: int|
            0 <= i < self@.len() ==> {
                &&& self.bin_to_hertz_admits(i as usize, scalar)
                &&& forall|hertz: T| #[trigger]
                    self.maps_bin_to_hertz(i as usize, scalar, hertz) ==> call_requires(
                        reconciler,
                        (self, (Hertz(hertz), #[trigger] self@[i]), other),
                    )
            }
    }

    /// A new spectrum whose bin `i` is `reconciler(self, (frequency, value), other)` for
    /// the frequency and the value of bin `i` of `self`, the bins taken in ascending order.
    ///
    /// Neither input changes; the result keeps the sample rate of `self`. `scalar` converts
    /// a count to the number type of the bins.
    pub fn merge<S, R>(&self, other: &FrequencySpectrum<T>, scalar: &S, reconciler: R) -> (merged:
        FrequencySpectrum<T>) where
        S: Fn(usize) -> T,
        R: Fn(&FrequencySpectrum<T>, (Hertz<T>, T), &FrequencySpectrum<T>) -> T,

        requires
            self.reconcilable(other, scalar, reconciler),
        ensures
            self.merges_into(other, scalar, reconciler, &merged),
    {
        let mut merged_bins: Vec<T> = Vec::new();
        let mut index: usize = 0;
        while index < self.bins.len()
            invariant
                index <= self.bins@.len(),
                merged_bins@.len() == index,
                self.reconcilable(other, scalar, reconciler),
                forall|i: int|
                    0 <= i < index ==> self.reconciles(
                        i,
                        other,
                        scalar,
                        reconciler,
                        #[trigger] merged_bins@[i],
                    ),
            decreases self.bins@.len() - index,
        {
            let value = self.bins[index];
            assert(value == self@[index as int]);
            let frequency = self.bin_to_hertz(index, scalar);
            let ghost hertz = frequency.0;
            assert(frequency == Hertz(hertz));
            let reconciled = reconciler(self, (frequency, value), other);
            assert(self.reconciles(index as int, other, scalar, reconciler, reconciled));
            merged_bins.push(reconciled);
            index += 1;
        }
        FrequencySpectrum { sample_rate: self.sample_rate, bins: merged_bins }
    }
}

impl<T> Default for FrequencySpectrum<T> {
    /// The spectrum without bins, at a sample rate of 1.
    fn default() -> (spectrum: Self)
        ensures
            spectrum@ == Seq::<T>::empty(),
            spectrum.spec_sample_rate() == 1,
    {
        Self { bins: Vec::new(), sample_rate: 1 }
    }
}

/// Merging with a reconciler that always returns the value it was given leaves every bin as
/// it was: the outcome has the bins and the sample rate of the spectrum that was merged.
pub proof fn lemma_merge_identity<T: Scalar, S, R>(
    spectrum: &FrequencySpectrum<T>,
    other: &FrequencySpectrum<T>,
    scalar: &S,
    reconciler: R,
    merged: &FrequencySpectrum<T>,
) where
    S: Fn(usize) -> T,
    R: Fn(&FrequencySpectrum<T>, (Hertz<T>, T), &FrequencySpectrum<T>) -> T,

    requires
        spectrum.merges_into(other, scalar, reconciler, merged),
        forall|
            left: &FrequencySpectrum<T>,
            bin: (Hertz<T>, T),
            right: &FrequencySpectrum<T>,
            value: T,
        | #[trigger] call_ensures(reconciler, (left, bin, right), value) ==> value == bin.1,
    ensures
        merged@ == spectrum@,
        merged.spec_sample_rate() == spectrum.spec_sample_rate(),
{
    assert forall|i: int| 0 <= i < spectrum@.len() implies merged@[i] == spectrum@[i] by {
        assert(spectrum.reconciles(i, other, scalar, reconciler, merged@[i]));
    }
    assert(merged@ =~= spectrum@);
}

} // verus!

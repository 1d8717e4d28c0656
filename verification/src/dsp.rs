//! Signals and the processing steps that a signal is run through.
//!
//! A [`Signal`] is a buffer of samples with a sample rate and a set of flags that say what
//! the samples stand for. A [`ProcessingStep`] checks such a signal and turns it into
//! another; [`Signal::process_all`] runs a signal through a list of steps and stops at the
//! first step that does not accept what it is handed.

use crate::numtools::{is_lerp, lerp, lerp_admits, Scalar};
use crate::padding::{is_padded, pad_to};
use vstd::prelude::*;

verus! {

/// What the samples of a signal stand for.
#[derive(Debug, Clone, Copy, PartialEq, Eq, Hash)]
pub enum SignalFlag {
    /// The samples are ordered by time.
    TimeDomain,
    /// The samples are ordered by frequency.
    FrequencyDomain,
    /// The samples are linear amplitudes.
    AmplitudeCodomain,
    /// The samples are decibels relative to full scale.
    DBFSCodomain,
}

/// A buffer of samples, its sample rate and its flags.
#[derive(Debug, Clone)]
pub struct Signal<T> {
    buffer: Vec<T>,
    sample_rate: u32,
    time_domain: bool,
    frequency_domain: bool,
    amplitude_codomain: bool,
    dbfs_codomain: bool,
}

impl<T> View for Signal<T> {
    type V = Seq<T>;

    closed spec fn view(&self) -> Seq<T> {
        self.buffer@
    }
}

/// The error of a step that did not accept its input.
#[derive(Debug)]
pub struct ProcessingError {}

impl ProcessingError {
    /// The text that describes the error.
    pub fn message(&self) -> (text: String)
        ensures
            text@ == "an error occurred while processing"@,
    {
        "an error occurred while processing".to_owned()
    }
}

/// A copy of `samples`.
fn copy_of<T: Copy>(samples: &Vec<T>) -> (copy: Vec<T>)
    ensures
        copy@ == samples@,
{
    let mut copy: Vec<T> = Vec::new();
    let mut i: usize = 0;
    while i < samples.len()
        invariant
            i <= samples@.len(),
            copy@ == samples@.take(i as int),
        decreases samples@.len() - i,
    {
        copy.push(samples[i]);
        i += 1;
    }
    assert(samples@.take(samples@.len() as int) =~= samples@);
    copy
}

impl<T> Signal<T> {
    /// The sample rate of the signal.
    pub closed spec fn spec_sample_rate(&self) -> u32 {
        self.sample_rate
    }

    /// The flags that the signal carries.
    pub closed spec fn flags(&self) -> Set<SignalFlag> {
        Set::new(
            |flag: SignalFlag|
                match flag {
                    SignalFlag::TimeDomain => self.time_domain,
                    SignalFlag::FrequencyDomain => self.frequency_domain,
                    SignalFlag::AmplitudeCodomain => self.amplitude_codomain,
                    SignalFlag::DBFSCodomain => self.dbfs_codomain,
                },
        )
    }

    /// That `other` has the sample rate and the flags of `self`.
    pub open spec fn same_kind(&self, other: &Signal<T>) -> bool {
        other.spec_sample_rate() == self.spec_sample_rate() && other.flags() == self.flags()
    }

    /// A signal with the samples `data` and the sample rate and flags of `source`.
    pub fn with(source: Signal<T>, data: Vec<T>) -> (signal: Signal<T>)
        ensures
            signal@ == data@,
            source.same_kind(&signal),
    {
        Signal {
            buffer: data,
            sample_rate: source.sample_rate,
            time_domain: source.time_domain,
            frequency_domain: source.frequency_domain,
            amplitude_codomain: source.amplitude_codomain,
            dbfs_codomain: source.dbfs_codomain,
        }
    }

    /// An empty signal of linear amplitudes over time.
    pub fn new(sample_rate: u32) -> (signal: Self)
        ensures
            signal@ == Seq::<T>::empty(),
            signal.spec_sample_rate() == sample_rate,
            signal.flags() == set![SignalFlag::AmplitudeCodomain, SignalFlag::TimeDomain],
    {
        let signal = Signal {
            buffer: Vec::new(),
            sample_rate,
            time_domain: true,
            frequency_domain: false,
            amplitude_codomain: true,
            dbfs_codomain: false,
        };
        assert(signal.flags() =~= set![SignalFlag::AmplitudeCodomain, SignalFlag::TimeDomain]);
        signal
    }

    /// `source` itself where it has the given sample rate already, an empty signal at that
    /// rate where it has not.
    pub fn resample(source: &Signal<T>, sample_rate: u32) -> (signal: Signal<T>) where T: Copy
        ensures
            signal.spec_sample_rate() == sample_rate,
            source.spec_sample_rate() == sample_rate ==> signal@ == source@ && signal.flags()
                == source.flags(),
            source.spec_sample_rate() != sample_rate ==> signal@ == Seq::<T>::empty()
                && signal.flags() == set![SignalFlag::AmplitudeCodomain, SignalFlag::TimeDomain],
    {
        if source.sample_rate == sample_rate {
            return Signal {
                buffer: copy_of(&source.buffer),
                sample_rate: source.sample_rate,
                time_domain: source.time_domain,
                frequency_domain: source.frequency_domain,
                amplitude_codomain: source.amplitude_codomain,
                dbfs_codomain: source.dbfs_codomain,
            };
        }
        Signal::new(sample_rate)
    }

    /// Puts the given samples in front of the buffer one by one, so that the last of them
    /// ends up first.
    pub fn push(&mut self, samples: &[T]) where T: Copy
        ensures
            final(self)@ == samples@.reverse() + old(self)@,
            old(self).same_kind(final(self)),
    {
        let mut i: usize = 0;
        while i < samples.len()
            invariant
                i <= samples@.len(),
                self@ == samples@.take(i as int).reverse() + old(self)@,
                old(self).same_kind(self),
            decreases samples@.len() - i,
        {
            let ghost before = self@;
            self.buffer.insert(0, samples[i]);
            proof {
                let taken = samples@.take(i as int);
                let longer = samples@.take(i as int + 1);
                assert(self@ == before.insert(0, samples@[i as int]));
                assert forall|k: int| 0 <= k < self@.len() implies self@[k] == (longer.reverse()
                    + old(self)@)[k] by {
                    if 0 < k <= i {
                        assert(before[k - 1] == taken.reverse()[k - 1]);
                    }
                }
                assert(self@ =~= longer.reverse() + old(self)@);
            }
            i += 1;
        }
        assert(samples@.take(samples@.len() as int) =~= samples@);
    }

    /// Keeps the first `length` samples and drops the rest.
    pub fn truncate(&mut self, length: usize)
        ensures
            final(self)@ == if length <= old(self)@.len() {
                old(self)@.take(length as int)
            } else {
                old(self)@
            },
            old(self).same_kind(final(self)),
    {
        self.buffer.truncate(length);
    }

    /// The number of samples.
    pub fn len(&self) -> (n: usize)
        ensures
            n == self@.len(),
    {
        return self.buffer.len();
    }

    /// A copy of the samples.
    pub fn samples(&self) -> (samples: Vec<T>) where T: Copy
        ensures
            samples@ == self@,
    {
        return copy_of(&self.buffer);
    }

    /// The sample rate of the signal.
    pub fn sample_rate(&self) -> (rate: u32)
        ensures
            rate == self.spec_sample_rate(),
    {
        self.sample_rate
    }

    /// Whether the signal carries `flag`.
    pub fn has_flag(&self, flag: SignalFlag) -> (has: bool)
        ensures
            has == self.flags().contains(flag),
    {
        match flag {
            SignalFlag::TimeDomain => self.time_domain,
            SignalFlag::FrequencyDomain => self.frequency_domain,
            SignalFlag::AmplitudeCodomain => self.amplitude_codomain,
            SignalFlag::DBFSCodomain => self.dbfs_codomain,
        }
    }

    /// The signal without `flag`.
    pub fn deflag(self, flag: SignalFlag) -> (signal: Self)
        ensures
            signal@ == self@,
            signal.spec_sample_rate() == self.spec_sample_rate(),
            signal.flags() == self.flags().remove(flag),
    {
        let mut signal = self;
        match flag {
            SignalFlag::TimeDomain => {
                signal.time_domain = false;
            },
            SignalFlag::FrequencyDomain => {
                signal.frequency_domain = false;
            },
            SignalFlag::AmplitudeCodomain => {
                signal.amplitude_codomain = false;
            },
            SignalFlag::DBFSCodomain => {
                signal.dbfs_codomain = false;
            },
        }
        assert(signal.flags() =~= self.flags().remove(flag));
        signal
    }

    /// The signal with `flag`.
    pub fn flag(self, flag: SignalFlag) -> (signal: Self)
        ensures
            signal@ == self@,
            signal.spec_sample_rate() == self.spec_sample_rate(),
            signal.flags() == self.flags().insert(flag),
    {
        let mut signal = self;
        match flag {
            SignalFlag::TimeDomain => {
                signal.time_domain = true;
            },
            SignalFlag::FrequencyDomain => {
                signal.frequency_domain = true;
            },
            SignalFlag::AmplitudeCodomain => {
                signal.amplitude_codomain = true;
            },
            SignalFlag::DBFSCodomain => {
                signal.dbfs_codomain = true;
            },
        }
        assert(signal.flags() =~= self.flags().insert(flag));
        signal
    }
}

/// That `value` is what sample `index` of a signal with the given content counts as in a
/// blend: the sample itself where the signal has one that `finite` accepts, and `zero`
/// where the signal is too short or the sample is not accepted.
pub open spec fn settled<T, F: Fn(&T) -> bool>(
    content: Seq<T>,
    index: int,
    zero: T,
    finite: &F,
    value: T,
) -> bool {
    if 0 <= index < content.len() {
        exists|accepted: bool| #[trigger]
            call_ensures(*finite, (&content[index],), accepted) && value == if accepted {
                content[index]
            } else {
                zero
            }
    } else {
        value == zero
    }
}

/// That `blended` is a blend for sample `index` of two signals: what the first counts as
/// at that index, moved towards what the second counts as by the fraction `time`.
pub open spec fn blends_samples<T: Scalar, F: Fn(&T) -> bool>(
    from: Seq<T>,
    to: Seq<T>,
    index: int,
    time: T,
    zero: T,
    finite: &F,
    blended: T,
) -> bool {
    exists|a: T, b: T|
        {
            &&& #[trigger] is_lerp::<T, T, T, T, T, T>(a, b, time, blended)
            &&& settled(from, index, zero, finite, a)
            &&& settled(to, index, zero, finite, b)
        }
}

/// Whether two signals can be blended: `finite` can be called on every sample, and the
/// interpolation can be evaluated for whatever the samples count as.
pub open spec fn blend_admits<T: Scalar, F: Fn(&T) -> bool>(
    from: Seq<T>,
    to: Seq<T>,
    time: T,
    zero: T,
    finite: &F,
) -> bool {
    &&& forall|i: int| 0 <= i < from.len() ==> call_requires(*finite, (&#[trigger] from[i],))
    &&& forall|i: int| 0 <= i < to.len() ==> call_requires(*finite, (&#[trigger] to[i],))
    &&& forall|i: int, a: T, b: T|
        #[trigger] settled(from, i, zero, finite, a) && #[trigger] settled(to, i, zero, finite, b)
            ==> lerp_admits::<T, T, T, T, T, T>(a, b, time)
}

/// The sample of `samples` at `index` as it counts in a blend.
fn settle<T: Copy, F: Fn(&T) -> bool>(samples: &Vec<T>, index: usize, zero: T, finite: &F) -> (value:
    T)
    requires
        index < samples@.len() ==> call_requires(*finite, (&samples@[index as int],)),
    ensures
        settled(samples@, index as int, zero, finite, value),
{
    if index < samples.len() {
        if finite(&samples[index]) {
            samples[index]
        } else {
            zero
        }
    } else {
        zero
    }
}

impl<T: Scalar> Signal<T> {
    /// Blends two signals sample by sample: `from + (to - from) * time`.
    ///
    /// The result is as long as the longer of the two and has the sample rate and the
    /// flags of `to`. A sample that a signal lacks, or that `finite` does not accept,
    /// counts as `zero`.
    pub fn lerp<F: Fn(&T) -> bool>(from: Signal<T>, to: Signal<T>, time: T, zero: T, finite: &F) -> (blend:
        Signal<T>)
        requires
            blend_admits(from@, to@, time, zero, finite),
        ensures
            to.same_kind(&blend),
            blend@.len() == if from@.len() >= to@.len() {
                from@.len()
            } else {
                to@.len()
            },
            forall|i: int|
                0 <= i < blend@.len() ==> blends_samples(
                    from@,
                    to@,
                    i,
                    time,
                    zero,
                    finite,
                    #[trigger] blend@[i],
                ),
    {
        let max = if from.buffer.len() >= to.buffer.len() {
            from.buffer.len()
        } else {
            to.buffer.len()
        };
        let mut data: Vec<T> = Vec::new();
        let mut i: usize = 0;
        while i < max
            invariant
                i <= max,
                data@.len() == i,
                blend_admits(from@, to@, time, zero, finite),
                forall|k: int|
                    0 <= k < i ==> blends_samples(
                        from@,
                        to@,
                        k,
                        time,
                        zero,
                        finite,
                        #[trigger] data@[k],
                    ),
            decreases max - i,
        {
            let a = settle(&from.buffer, i, zero, finite);
            let b = settle(&to.buffer, i, zero, finite);
            let blended = lerp(a, b, time);
            data.push(blended);
            i += 1;
        }
        Signal::with(to, data)
    }
}

/// One step of a processing pipeline.
pub trait ProcessingStep<T> {
    /// Whether the step takes `signal` as its input. A step that does not say takes
    /// every signal.
    open spec fn accepts(&self, signal: &Signal<T>) -> bool {
        true
    }

    /// Whether the step can process `signal` at all. A step that does not say can
    /// process every signal.
    open spec fn admits(&self, signal: &Signal<T>) -> bool {
        true
    }

    /// That `output` is what the step makes of `signal`. A step that does not say
    /// promises nothing of its output.
    open spec fn yields(&self, signal: &Signal<T>, output: &Signal<T>) -> bool {
        true
    }

    /// That `name` is the name of the step. A step that does not say may go by any
    /// name.
    open spec fn is_named(&self, name: Seq<char>) -> bool {
        true
    }

    /// A name for the step that can be shown to a person.
    fn friendly_name(&self) -> (name: String)
        ensures
            self.is_named(name@),
    ;

    /// Whether the step takes `signal` as its input.
    fn is_valid_input(&self, signal: &Signal<T>) -> (valid: bool)
        ensures
            valid == self.accepts(signal),
    ;

    /// Turns `signal` into the output of the step.
    fn process(&self, signal: Signal<T>) -> (output: Signal<T>)
        requires
            self.admits(&signal),
        ensures
            self.yields(&signal, &output),
    ;
}

/// A step that shapes a block of samples before it is transformed.
pub trait Window {

}

/// Whether the steps from index `from` on can be run on `signal`: every step that accepts
/// what reaches it can process it, whatever the steps before it yielded.
pub open spec fn pipeline_admits<T>(
    steps: Seq<Box<dyn ProcessingStep<T>>>,
    from: int,
    signal: Signal<T>,
) -> bool
    decreases steps.len() - from,
{
    if from < 0 || from >= steps.len() {
        true
    } else {
        steps[from].accepts(&signal) ==> {
            &&& steps[from].admits(&signal)
            &&& forall|next: Signal<T>| #[trigger]
                steps[from].yields(&signal, &next) ==> pipeline_admits(steps, from + 1, next)
        }
    }
}

/// That `outcome` is a result of running `signal` through the steps from index `from` on:
/// an error as soon as a step does not accept what reaches it, and otherwise what the last
/// step yielded.
pub open spec fn pipeline_yields<T>(
    steps: Seq<Box<dyn ProcessingStep<T>>>,
    from: int,
    signal: Signal<T>,
    outcome: Result<Signal<T>, ProcessingError>,
) -> bool
    decreases steps.len() - from,
{
    if from < 0 || from >= steps.len() {
        outcome == Ok::<Signal<T>, ProcessingError>(signal)
    } else if !steps[from].accepts(&signal) {
        outcome is Err
    } else {
        exists|next: Signal<T>| #[trigger]
            steps[from].yields(&signal, &next) && pipeline_yields(steps, from + 1, next, outcome)
    }
}

impl<T> Signal<T> {
    /// Runs the signal through `step`, if the step accepts it.
    pub fn process(self, step: &Box<dyn ProcessingStep<T>>) -> (outcome: Result<
        Self,
        ProcessingError,
    >)
        requires
            step.accepts(&self) ==> step.admits(&self),
        ensures
            outcome is Ok <==> step.accepts(&self),
            outcome matches Ok(output) ==> step.yields(&self, &output),
    {
        if !step.is_valid_input(&self) {
            return Err(ProcessingError {  });
        }
        Ok(step.process(self))
    }

    /// Runs the signal through `steps` in order, each step on what the step before it
    /// yielded, and fails at the first step that does not accept what it is handed.
    pub fn process_all(self, steps: Vec<Box<dyn ProcessingStep<T>>>) -> (outcome: Result<
        Self,
        ProcessingError,
    >)
        requires
            pipeline_admits(steps@, 0, self),
        ensures
            pipeline_yields(steps@, 0, self, outcome),
    {
        let mut current = self;
        let mut i: usize = 0;
        while i < steps.len()
            invariant
                i <= steps@.len(),
                pipeline_admits(steps@, i as int, current),
                forall|outcome: Result<Self, ProcessingError>|
                    pipeline_yields(steps@, i as int, current, outcome) ==> pipeline_yields(
                        steps@,
                        0,
                        self,
                        outcome,
                    ),
            decreases steps@.len() - i,
        {
            let ghost reached = current;
            match current.process(&steps[i]) {
                Ok(signal) => {
                    current = signal;
                },
                Err(e) => {
                    assert(pipeline_yields(
                        steps@,
                        i as int,
                        reached,
                        Err::<Self, ProcessingError>(e),
                    ));
                    return Err(e);
                },
            }
            i += 1;
        }
        return Ok(current);
    }
}

/// Keeps the positive frequencies of a transformed signal: the first half of what follows
/// the constant component.
pub struct Demangle;

impl Demangle {
    /// The step, boxed for a pipeline.
    pub fn new() -> (step: Box<Self>) {
        Box::new(Demangle)
    }
}

impl<T: Copy> ProcessingStep<T> for Demangle {
    open spec fn accepts(&self, signal: &Signal<T>) -> bool {
        signal.flags().contains(SignalFlag::FrequencyDomain)
    }

    open spec fn admits(&self, signal: &Signal<T>) -> bool {
        signal@.len() >= 1
    }

    open spec fn yields(&self, signal: &Signal<T>, output: &Signal<T>) -> bool {
        &&& signal.same_kind(output)
        &&& output@ == signal@.subrange(1, 1 + signal@.len() as int / 2)
    }

    open spec fn is_named(&self, name: Seq<char>) -> bool {
        name == "Demangle"@
    }

    fn friendly_name(&self) -> (name: String) {
        "Demangle".to_owned()
    }

    fn is_valid_input(&self, signal: &Signal<T>) -> (valid: bool) {
        signal.has_flag(SignalFlag::FrequencyDomain)
    }

    fn process(&self, signal: Signal<T>) -> (output: Signal<T>) {
        let buffer = signal.samples();
        let len = buffer.len();
        let end = 1 + len / 2;
        let mut positive: Vec<T> = Vec::new();
        let mut i: usize = 1;
        while i < end
            invariant
                1 <= i <= end <= buffer@.len(),
                positive@ == buffer@.subrange(1, i as int),
            decreases end - i,
        {
            positive.push(buffer[i]);
            i += 1;
        }
        Signal::with(signal, positive)
    }
}

/// Pads a signal with default samples to a whole number of chunks.
pub struct Pad {
    target_chunk_size: usize,
}

/// The least multiple of `chunk` that is not below `len`.
pub open spec fn padded_len(len: int, chunk: int) -> int {
    if len % chunk == 0 {
        len
    } else {
        len + chunk - len % chunk
    }
}

impl Pad {
    /// The chunk size that the step pads to.
    pub closed spec fn spec_chunk_size(&self) -> usize {
        self.target_chunk_size
    }

    /// A step that pads to multiples of `target_chunk_size`, boxed for a pipeline.
    pub fn to_size(target_chunk_size: usize) -> (step: Box<Self>)
        ensures
            step.spec_chunk_size() == target_chunk_size,
    {
        Box::new(Pad { target_chunk_size })
    }
}

impl<T: Copy + Default> ProcessingStep<T> for Pad {
    open spec fn accepts(&self, signal: &Signal<T>) -> bool {
        true
    }

    open spec fn admits(&self, signal: &Signal<T>) -> bool {
        self.spec_chunk_size() > 0 && signal@.len() + self.spec_chunk_size() <= usize::MAX
    }

    open spec fn yields(&self, signal: &Signal<T>, output: &Signal<T>) -> bool {
        &&& signal.same_kind(output)
        &&& is_padded(
            signal@,
            padded_len(signal@.len() as int, self.spec_chunk_size() as int) as nat,
            output@,
        )
    }

    open spec fn is_named(&self, name: Seq<char>) -> bool {
        name == "Zero-pad"@
    }

    fn friendly_name(&self) -> (name: String) {
        "Zero-pad".to_owned()
    }

    fn is_valid_input(&self, _signal: &Signal<T>) -> (valid: bool) {
        true
    }

    fn process(&self, signal: Signal<T>) -> (output: Signal<T>) {
        let mut data = signal.samples();
        let len = signal.len();
        let chunk_len = self.target_chunk_size;
        let remainder = (len + chunk_len) % chunk_len;
        proof {
            vstd::arithmetic::div_mod::lemma_mod_add_multiples_vanish(len as int, chunk_len as int);
            vstd::arithmetic::div_mod::lemma_mod_bound(len as int, chunk_len as int);
        }
        if remainder == 0 {
            return signal;
        }
        pad_to(&mut data, len + chunk_len - remainder);
        Signal::with(signal, data)
    }
}

/// Keeps every `factor`-th sample of a signal, beginning with the first.
pub struct Subsample {
    /// The distance between two samples that are kept.
    pub factor: usize,
}

/// How many samples remain of `len` when every `factor`-th is kept.
pub open spec fn strided_len(len: int, factor: int) -> int {
    if len <= 0 {
        0
    } else {
        (len - 1) / factor + 1
    }
}

/// The position in the input of the sample that ends up at `index` when every
/// `factor`-th sample is kept.
pub open spec fn strided_index(factor: int, index: int) -> int {
    index * factor
}

impl Subsample {
    /// A step that keeps every `factor`-th sample, boxed for a pipeline.
    pub fn with_factor(factor: usize) -> (step: Box<Self>)
        ensures
            step.factor == factor,
    {
        Box::new(Subsample { factor })
    }
}

impl<T: Copy> ProcessingStep<T> for Subsample {
    open spec fn accepts(&self, signal: &Signal<T>) -> bool {
        true
    }

    open spec fn admits(&self, signal: &Signal<T>) -> bool {
        self.factor > 0
    }

    open spec fn yields(&self, signal: &Signal<T>, output: &Signal<T>) -> bool {
        &&& signal.same_kind(output)
        &&& output@ == Seq::new(
            strided_len(signal@.len() as int, self.factor as int) as nat,
            |index: int| signal@[strided_index(self.factor as int, index)],
        )
    }

    open spec fn is_named(&self, name: Seq<char>) -> bool {
        name == "Subsample"@
    }

    fn friendly_name(&self) -> (name: String) {
        "Subsample".to_owned()
    }

    fn is_valid_input(&self, _signal: &Signal<T>) -> (valid: bool) {
        true
    }

    fn process(&self, signal: Signal<T>) -> (output: Signal<T>) {
        let buffer = signal.samples();
        let len = buffer.len();
        let factor = self.factor;
        let mut kept: Vec<T> = Vec::new();
        let mut i: usize = 0;
        proof {
            if len > 0 {
                vstd::arithmetic::div_mod::lemma_div_pos_is_pos(len as int - 1, factor as int);
            }
        }
        while i < len
            invariant_except_break
                i == strided_index(factor as int, kept@.len() as int),
                kept@.len() == 0 ==> i == 0,
                kept@.len() > 0 ==> i < len,
            invariant
                factor > 0,
                len == buffer@.len(),
                kept@.len() <= strided_len(len as int, factor as int),
                forall|index: int|
                    0 <= index < kept@.len() ==> #[trigger] kept@[index] == buffer@[strided_index(
                        factor as int,
                        index,
                    )],
            ensures
                kept@.len() == strided_len(len as int, factor as int),
            decreases len - i,
        {
            let ghost count = kept@.len() as int;
            kept.push(buffer[i]);
            proof {
                vstd::arithmetic::mul::lemma_mul_is_distributive_add_other_way(
                    factor as int,
                    count,
                    1,
                );
                vstd::arithmetic::div_mod::lemma_fundamental_div_mod(len as int - 1, factor as int);
                vstd::arithmetic::div_mod::lemma_mod_bound(len as int - 1, factor as int);
                vstd::arithmetic::mul::lemma_mul_is_commutative(
                    factor as int,
                    (len as int - 1) / (factor as int),
                );
                if count >= strided_len(len as int, factor as int) {
                    vstd::arithmetic::mul::lemma_mul_inequality(
                        (len as int - 1) / (factor as int) + 1,
                        count,
                        factor as int,
                    );
                    vstd::arithmetic::mul::lemma_mul_is_distributive_add_other_way(
                        factor as int,
                        (len as int - 1) / (factor as int),
                        1,
                    );
                }
            }
            if len - i <= factor {
                proof {
                    vstd::arithmetic::div_mod::lemma_fundamental_div_mod_converse(
                        len as int - 1,
                        factor as int,
                        count,
                        len as int - 1 - i as int,
                    );
                }
                break ;
            }
            i += factor;
        }
        assert(kept@ =~= Seq::new(
            strided_len(len as int, factor as int) as nat,
            |index: int| buffer@[strided_index(factor as int, index)],
        ));
        Signal::with(signal, kept)
    }
}

} // verus!

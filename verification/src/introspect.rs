//! Capture of interleaved multi-channel audio into bounded per-channel buffers.
//!
//! Each channel keeps its most recent samples, newest first, never more than the capacity
//! of the session. Samples of an interleaved stream are handed to the channels in turn.
//! A snapshot of a channel is always as long as the capacity: what has not been filled yet
//! reads as the default sample.
//!
//! Nothing here locks. A host that writes and reads from different threads guards each
//! channel's buffer with a lock of its own and calls [`push_bounded`] and [`snapshot`]
//! while it holds that lock; [`Introspectable`] is the same capture owned in one piece.

use crate::fft::AudioView;
use crate::padding::{is_padded, pad_to};
use std::collections::VecDeque;
use vstd::prelude::*;

verus! {

/// The content of a channel after `sample` arrived: `sample` in front, and the oldest
/// sample gone if that made the content longer than `capacity`.
pub open spec fn pushed<T>(content: Seq<T>, sample: T, capacity: nat) -> Seq<T> {
    let grown = seq![sample] + content;
    if grown.len() > capacity {
        grown.drop_last()
    } else {
        grown
    }
}

/// The content of a channel after the samples of `arrivals` arrived one by one, first to
/// last.
pub open spec fn pushed_all<T>(content: Seq<T>, arrivals: Seq<T>, capacity: nat) -> Seq<T>
    decreases arrivals.len(),
{
    if arrivals.len() == 0 {
        content
    } else {
        pushed(pushed_all(content, arrivals.drop_last(), capacity), arrivals.last(), capacity)
    }
}

/// The channel that receives sample `index` of an interleaved block whose first sample
/// goes to channel `start`.
pub open spec fn route(start: int, channel_count: int, index: int) -> int {
    (start + index) % channel_count
}

/// The samples of `block` that go to `channel`, in the order in which they arrive.
pub open spec fn routed<T>(block: Seq<T>, start: int, channel_count: int, channel: int) -> Seq<T>
    decreases block.len(),
{
    if block.len() == 0 {
        Seq::empty()
    } else {
        let earlier = routed(block.drop_last(), start, channel_count, channel);
        if route(start, channel_count, block.len() - 1) == channel {
            earlier.push(block.last())
        } else {
            earlier
        }
    }
}

/// Puts `sample` at the front of `buffer` and evicts the oldest sample if the buffer then
/// holds more than `capacity`.
pub fn push_bounded<T>(buffer: &mut VecDeque<T>, sample: T, capacity: usize)
    ensures
        final(buffer)@ == pushed(old(buffer)@, sample, capacity as nat),
{
    buffer.push_front(sample);
    if buffer.len() > capacity {
        let _ = buffer.pop_back();
    }
}

/// Copies the content of `buffer`, newest first, and pads it with default samples to
/// `capacity`.
pub fn snapshot<T: Copy + Default>(buffer: &VecDeque<T>, capacity: usize) -> (samples: Vec<T>)
    requires
        buffer@.len() <= capacity,
    ensures
        is_padded(buffer@, capacity as nat, samples@),
{
    let filled = buffer.len();
    let mut samples: Vec<T> = Vec::new();
    let mut i: usize = 0;
    while i < filled
        invariant
            i <= filled == buffer@.len(),
            samples@ == buffer@.take(i as int),
        decreases filled - i,
    {
        samples.push(buffer[i]);
        i += 1;
    }
    assert(buffer@.take(filled as int) =~= buffer@);
    pad_to(&mut samples, capacity);
    samples
}

/// Which channel the next sample of an interleaved stream belongs to.
pub struct RoundRobin {
    current_channel: usize,
}

impl RoundRobin {
    /// The channel that the next sample goes to.
    pub closed spec fn spec_current(&self) -> usize {
        self.current_channel
    }

    /// A cursor at channel 0.
    pub fn new() -> (cursor: Self)
        ensures
            cursor.spec_current() == 0,
    {
        Self { current_channel: 0 }
    }

    /// The channel that the next sample goes to.
    #[verifier::when_used_as_spec(spec_current)]
    pub fn current(&self) -> (channel: usize)
        ensures
            channel == self.spec_current(),
    {
        self.current_channel
    }

    /// Moves on to the following channel, and from the last channel back to the first.
    pub fn advance(&mut self, channel_count: usize)
        requires
            old(self).spec_current() < channel_count,
        ensures
            final(self).spec_current() == route(old(self).spec_current() as int, channel_count as int, 1),
    {
        self.current_channel = (self.current_channel + 1) % channel_count;
    }
}

/// A capture session: one bounded buffer for each channel, with the sample rate of the
/// stream and the capacity that every buffer is bounded to.
#[derive(Debug)]
pub struct Introspectable<T> {
    access: Vec<VecDeque<T>>,
    sample_rate: u32,
    buffer_size: usize,
}

impl<T> Introspectable<T> {
    /// The content of each channel's buffer, newest sample first.
    pub closed spec fn contents(&self) -> Seq<Seq<T>> {
        Seq::new(self.access@.len(), |channel: int| self.access@[channel]@)
    }

    /// The sample rate of the captured stream.
    pub closed spec fn spec_sample_rate(&self) -> u32 {
        self.sample_rate
    }

    /// The capacity of each channel's buffer.
    pub closed spec fn spec_buffer_size(&self) -> usize {
        self.buffer_size
    }

    /// No channel holds more samples than the capacity.
    pub open spec fn wf(&self) -> bool {
        forall|channel: int|
            0 <= channel < self.contents().len() ==> (#[trigger] self.contents()[channel]).len()
                <= self.spec_buffer_size()
    }

    /// A session over the given buffers.
    pub fn new(access: Vec<VecDeque<T>>, sample_rate: u32, buffer_size: usize) -> (session: Self)
        ensures
            session.contents().len() == access@.len(),
            session.contents() == Seq::new(access@.len(), |channel: int| access@[channel]@),
            session.spec_sample_rate() == sample_rate,
            session.spec_buffer_size() == buffer_size,
    {
        Self { access, sample_rate, buffer_size }
    }

    /// The number of channels.
    pub fn channel_count(&self) -> (count: usize)
        ensures
            count == self.contents().len(),
    {
        self.access.len()
    }

    /// The sample rate of the captured stream.
    pub fn sample_rate(&self) -> (rate: u32)
        ensures
            rate == self.spec_sample_rate(),
    {
        self.sample_rate
    }

    /// The capacity of each channel's buffer.
    pub fn buffer_size(&self) -> (capacity: usize)
        ensures
            capacity == self.spec_buffer_size(),
    {
        self.buffer_size
    }

    /// Writes `sample` to the channel under `cursor` and moves the cursor on.
    pub fn write(&mut self, cursor: &mut RoundRobin, sample: T)
        requires
            old(cursor).spec_current() < old(self).contents().len(),
        ensures
            final(self).contents() == old(self).contents().update(
                old(cursor).spec_current() as int,
                pushed(
                    old(self).contents()[old(cursor).spec_current() as int],
                    sample,
                    old(self).spec_buffer_size() as nat,
                ),
            ),
            final(self).spec_sample_rate() == old(self).spec_sample_rate(),
            final(self).spec_buffer_size() == old(self).spec_buffer_size(),
            final(cursor).spec_current() == route(
                old(cursor).spec_current() as int,
                old(self).contents().len() as int,
                1,
            ),
    {
        let channel = cursor.current();
        let capacity = self.buffer_size;
        push_bounded(&mut self.access[channel], sample, capacity);
        cursor.advance(self.access.len());
        assert(self.contents() =~= old(self).contents().update(
            channel as int,
            pushed(old(self).contents()[channel as int], sample, capacity as nat),
        ));
    }

    /// Writes the samples of an interleaved block, each to the channel under `cursor`,
    /// which moves on after every sample.
    ///
    /// Sample `i` of the block reaches channel `(start + i) % channel_count`, where `start`
    /// is the channel under the cursor at the call, and each channel receives its samples
    /// in the order of the block.
    pub fn write_interleaved(&mut self, cursor: &mut RoundRobin, block: &[T]) where T: Copy
        requires
            old(cursor).spec_current() < old(self).contents().len(),
        ensures
            final(self).contents().len() == old(self).contents().len(),
            forall|channel: int|
                0 <= channel < old(self).contents().len() ==> (#[trigger] final(self).contents()[channel])
                    == pushed_all(
                    old(self).contents()[channel],
                    routed(
                        block@,
                        old(cursor).spec_current() as int,
                        old(self).contents().len() as int,
                        channel,
                    ),
                    old(self).spec_buffer_size() as nat,
                ),
            final(self).spec_sample_rate() == old(self).spec_sample_rate(),
            final(self).spec_buffer_size() == old(self).spec_buffer_size(),
            final(cursor).spec_current() == route(
                old(cursor).spec_current() as int,
                old(self).contents().len() as int,
                block@.len() as int,
            ),
    {
        let ghost start = cursor.spec_current() as int;
        let ghost count = self.contents().len() as int;
        let ghost capacity = self.spec_buffer_size() as nat;
        let ghost before = self.contents();
        proof {
            vstd::arithmetic::div_mod::lemma_small_mod(start as nat, count as nat);
        }
        let mut i: usize = 0;
        while i < block.len()
            invariant
                i <= block@.len(),
                0 <= start < count,
                self.contents().len() == count,
                before.len() == count,
                self.spec_buffer_size() == capacity,
                self.spec_sample_rate() == old(self).spec_sample_rate(),
                cursor.spec_current() == route(start, count, i as int),
                forall|channel: int|
                    0 <= channel < count ==> (#[trigger] self.contents()[channel]) == pushed_all(
                        before[channel],
                        routed(block@.take(i as int), start, count, channel),
                        capacity,
                    ),
            decreases block@.len() - i,
        {
            let ghost held = self.contents();
            let ghost target = cursor.spec_current() as int;
            self.write(cursor, block[i]);
            proof {
                let longer = block@.take(i as int + 1);
                assert(longer.drop_last() =~= block@.take(i as int));
                assert(longer.last() == block@[i as int]);
                assert(route(route(start, count, i as int), count, 1) == route(
                    start,
                    count,
                    i as int + 1,
                )) by (nonlinear_arith)
                    requires
                        0 <= start < count,
                        0 <= i,
                {
                }
                assert forall|channel: int| 0 <= channel < count implies (
                #[trigger] self.contents()[channel]) == pushed_all(
                    before[channel],
                    routed(longer, start, count, channel),
                    capacity,
                ) by {
                    let earlier = routed(block@.take(i as int), start, count, channel);
                    assert(held[channel] == pushed_all(before[channel], earlier, capacity));
                    if channel == target {
                        let arrivals = earlier.push(block@[i as int]);
                        assert(routed(longer, start, count, channel) == arrivals);
                        assert(arrivals.drop_last() =~= earlier);
                        assert(arrivals.last() == block@[i as int]);
                    } else {
                        assert(routed(longer, start, count, channel) == earlier);
                    }
                }
            }
            i += 1;
        }
        assert(block@.take(block@.len() as int) =~= block@);
    }

    /// Records what a pull from the wrapped sequence returned: a sample is written as
    /// [`write`](Self::write) does, the end of the sequence changes nothing.
    pub fn record(&mut self, cursor: &mut RoundRobin, pulled: Option<T>)
        requires
            old(cursor).spec_current() < old(self).contents().len(),
        ensures
            final(self).contents() == match pulled {
                Some(sample) => old(self).contents().update(
                    old(cursor).spec_current() as int,
                    pushed(
                        old(self).contents()[old(cursor).spec_current() as int],
                        sample,
                        old(self).spec_buffer_size() as nat,
                    ),
                ),
                None => old(self).contents(),
            },
            final(self).spec_sample_rate() == old(self).spec_sample_rate(),
            final(self).spec_buffer_size() == old(self).spec_buffer_size(),
            pulled is Some ==> final(cursor).spec_current() == route(
                old(cursor).spec_current() as int,
                old(self).contents().len() as int,
                1,
            ),
            pulled is None ==> final(cursor).spec_current() == old(cursor).spec_current(),
    {
        if let Some(sample) = pulled {
            self.write(cursor, sample);
        }
    }

    /// A snapshot of every channel, each exactly as long as the capacity.
    pub fn channels(&self) -> (snapshots: Vec<Vec<T>>) where T: Copy + Default
        requires
            self.wf(),
        ensures
            snapshots@.len() == self.contents().len(),
            forall|channel: int|
                0 <= channel < self.contents().len() ==> is_padded(
                    self.contents()[channel],
                    self.spec_buffer_size() as nat,
                    (#[trigger] snapshots@[channel])@,
                ),
    {
        let mut snapshots: Vec<Vec<T>> = Vec::new();
        let mut channel: usize = 0;
        while channel < self.access.len()
            invariant
                self.wf(),
                channel <= self.access@.len(),
                snapshots@.len() == channel,
                forall|c: int|
                    0 <= c < channel ==> is_padded(
                        self.contents()[c],
                        self.spec_buffer_size() as nat,
                        (#[trigger] snapshots@[c])@,
                    ),
            decreases self.access@.len() - channel,
        {
            assert(self.contents()[channel as int] == self.access@[channel as int]@);
            snapshots.push(snapshot(&self.access[channel], self.buffer_size));
            channel += 1;
        }
        snapshots
    }

    /// A view of every channel: its snapshot, tagged with the sample rate of the session.
    pub fn audio_views(&self) -> (views: Vec<AudioView<T>>) where T: Copy + Default
        requires
            self.wf(),
        ensures
            views@.len() == self.contents().len(),
            forall|channel: int|
                0 <= channel < self.contents().len() ==> {
                    &&& is_padded(
                        self.contents()[channel],
                        self.spec_buffer_size() as nat,
                        (#[trigger] views@[channel])@,
                    )
                    &&& views@[channel].spec_sample_rate() == self.spec_sample_rate()
                },
    {
        let snapshots = self.channels();
        let ghost taken = snapshots@;
        let mut views: Vec<AudioView<T>> = Vec::new();
        for samples in walk: snapshots
            invariant
                walk.seq() == taken,
                views@.len() == walk.index(),
                forall|c: int|
                    0 <= c < views@.len() ==> {
                        &&& (#[trigger] views@[c])@ == taken[c]@
                        &&& views@[c].spec_sample_rate() == self.spec_sample_rate()
                    },
        {
            views.push(AudioView::new(self.sample_rate, samples));
        }
        views
    }
}

impl<T> Default for Introspectable<T> {
    /// A session without channels, at a sample rate of 1 and a capacity of 1.
    fn default() -> (session: Self)
        ensures
            session.contents() == Seq::<Seq<T>>::empty(),
            session.spec_sample_rate() == 1,
            session.spec_buffer_size() == 1,
            session.wf(),
    {
        let session = Self { access: Vec::new(), sample_rate: 1, buffer_size: 1 };
        assert(session.contents() =~= Seq::<Seq<T>>::empty());
        session
    }
}

/// Attaches a capture to a stream of `num_channels` interleaved channels: an empty buffer of
/// capacity `buffer_size` for each channel, and a cursor at the first channel.
pub fn introspect<T>(sample_rate: u32, num_channels: usize, buffer_size: usize) -> (capture: (
    Introspectable<T>,
    RoundRobin,
))
    ensures
        capture.0.contents().len() == num_channels,
        capture.0.contents() == Seq::new(num_channels as nat, |channel: int| Seq::<T>::empty()),
        capture.0.spec_sample_rate() == sample_rate,
        capture.0.spec_buffer_size() == buffer_size,
        capture.0.wf(),
        capture.1.spec_current() == 0,
{
    let mut buffers: Vec<VecDeque<T>> = Vec::new();
    let mut channel: usize = 0;
    while channel < num_channels
        invariant
            channel <= num_channels,
            buffers@.len() == channel,
            forall|c: int| 0 <= c < channel ==> (#[trigger] buffers@[c])@ == Seq::<T>::empty(),
        decreases num_channels - channel,
    {
        buffers.push(VecDeque::with_capacity(buffer_size));
        channel += 1;
    }
    let session = Introspectable::new(buffers, sample_rate, buffer_size);
    assert(session.contents() =~= Seq::new(num_channels as nat, |channel: int| Seq::<T>::empty()));
    (session, RoundRobin::new())
}

/// The newest `limit` samples of a channel that held `content` before `arrivals` came in:
/// the arrivals last to first, then the older content.
pub open spec fn newest_first<T>(content: Seq<T>, arrivals: Seq<T>, limit: nat) -> Seq<T> {
    (arrivals.reverse() + content).take(
        if arrivals.len() + content.len() <= limit {
            (arrivals.len() + content.len()) as int
        } else {
            limit as int
        },
    )
}

/// A channel that is within its capacity stays within it, however many samples arrive, and
/// holds the newest of them first: after `arrivals` it holds the last arrival, then the
/// one before, and so on through the older content, cut off at `capacity`.
pub proof fn lemma_pushed_all_newest_first<T>(content: Seq<T>, arrivals: Seq<T>, capacity: nat)
    requires
        content.len() <= capacity,
    ensures
        pushed_all(content, arrivals, capacity) == newest_first(content, arrivals, capacity),
    decreases arrivals.len(),
{
    if arrivals.len() == 0 {
        assert(arrivals.reverse() + content =~= content);
        assert(newest_first(content, arrivals, capacity) =~= content);
    } else {
        let earlier = arrivals.drop_last();
        let sample = arrivals.last();
        lemma_pushed_all_newest_first(content, earlier, capacity);
        let held = newest_first(content, earlier, capacity);
        let after = pushed(held, sample, capacity);
        let wanted = newest_first(content, arrivals, capacity);
        assert(after.len() == wanted.len());
        assert forall|i: int| 0 <= i < after.len() implies after[i] == wanted[i] by {
            if i > 0 {
                assert(after[i] == held[i - 1]);
                if i - 1 < earlier.len() {
                    assert(earlier.reverse()[i - 1] == earlier[earlier.len() - i]);
                    assert(arrivals.reverse()[i] == arrivals[arrivals.len() - 1 - i]);
                }
            } else {
                assert(arrivals.reverse()[0] == sample);
            }
        }
        assert(after =~= wanted);
    }
}

/// Capacity bound: after `N` pushes to an empty channel of capacity `C` the channel holds
/// exactly `min(N, C)` samples, and its sample `i` is the one that arrived `i` pushes
/// before the last.
pub proof fn lemma_capacity_bound<T>(arrivals: Seq<T>, capacity: nat)
    ensures
        pushed_all(Seq::<T>::empty(), arrivals, capacity).len() == if arrivals.len() <= capacity {
            arrivals.len()
        } else {
            capacity
        },
        forall|i: int|
            0 <= i < arrivals.len() && i < capacity ==> #[trigger] pushed_all(
                Seq::<T>::empty(),
                arrivals,
                capacity,
            )[i] == arrivals[arrivals.len() - 1 - i],
{
    lemma_pushed_all_newest_first(Seq::<T>::empty(), arrivals, capacity);
    let held = pushed_all(Seq::<T>::empty(), arrivals, capacity);
    assert forall|i: int| 0 <= i < arrivals.len() && i < capacity implies #[trigger] held[i]
        == arrivals[arrivals.len() - 1 - i] by {
        assert(held[i] == (arrivals.reverse() + Seq::<T>::empty())[i]);
        assert(arrivals.reverse()[i] == arrivals[arrivals.len() - 1 - i]);
    }
}

/// How many of the first `len` samples of an interleaved stream that starts at channel 0
/// belong to `channel`.
pub open spec fn share(len: int, channel_count: int, channel: int) -> int {
    len / channel_count + if len % channel_count > channel {
        1int
    } else {
        0int
    }
}

/// The index, in an interleaved stream that starts at channel 0, of the sample that
/// `channel` receives as its `j`-th, counted from 0.
pub open spec fn lane_index(channel_count: int, channel: int, j: int) -> int {
    channel + j * channel_count
}

/// Round-robin routing: of an interleaved block that starts at channel 0, channel `c` of `K`
/// receives the samples at the indices `c`, `c + K`, `c + 2K`, ..., in that order, which is
/// to say that sample `i` goes to channel `i mod K`.
pub proof fn lemma_round_robin<T>(block: Seq<T>, channel_count: int, channel: int)
    requires
        0 <= channel < channel_count,
    ensures
        routed(block, 0, channel_count, channel) == Seq::new(
            share(block.len() as int, channel_count, channel) as nat,
            |j: int| block[lane_index(channel_count, channel, j)],
        ),
    decreases block.len(),
{
    let len = block.len() as int;
    let lane = Seq::new(
        share(len, channel_count, channel) as nat,
        |j: int| block[lane_index(channel_count, channel, j)],
    );
    vstd::arithmetic::div_mod::lemma_fundamental_div_mod(len, channel_count);
    vstd::arithmetic::div_mod::lemma_div_pos_is_pos(len, channel_count);
    vstd::arithmetic::div_mod::lemma_mod_bound(len, channel_count);
    if block.len() == 0 {
        vstd::arithmetic::div_mod::lemma_small_mod(0, channel_count as nat);
        vstd::arithmetic::div_mod::lemma_div_basics(channel_count);
        assert(routed(block, 0, channel_count, channel) =~= lane);
    } else {
        let last = len - 1;
        let earlier = block.drop_last();
        lemma_round_robin(earlier, channel_count, channel);
        lemma_share_step(last, channel_count, channel);
        let quotient = last / channel_count;
        let lane_before = Seq::new(
            share(last, channel_count, channel) as nat,
            |j: int| earlier[lane_index(channel_count, channel, j)],
        );
        assert forall|j: int| 0 <= j < share(last, channel_count, channel) implies #[trigger] lane_index(
            channel_count,
            channel,
            j,
        ) < last by {
            lemma_share_covers(last, channel_count, channel, j);
        }
        if route(0, channel_count, last) == channel {
            assert(routed(block, 0, channel_count, channel) == lane_before.push(block.last()));
            assert(lane_before.push(block.last()) =~= lane);
        } else {
            assert(routed(block, 0, channel_count, channel) == lane_before);
            assert(lane_before =~= lane);
        }
    }
}

/// The channel that, of a stream starting at channel 0, receives what `channel` receives
/// of a stream starting at channel `start`.
pub open spec fn lane(start: int, channel_count: int, channel: int) -> int {
    (channel - start) % channel_count
}

/// Round-robin routing from any channel on: what `channel` receives of a block whose first
/// sample goes to channel `start` is what channel `lane(start, K, channel)` receives of the
/// same block with its first sample going to channel 0, so that sample `i` goes to channel
/// `(start + i) mod K`.
pub proof fn lemma_round_robin_from<T>(block: Seq<T>, start: int, channel_count: int, channel: int)
    requires
        0 <= start < channel_count,
        0 <= channel < channel_count,
    ensures
        0 <= lane(start, channel_count, channel) < channel_count,
        routed(block, start, channel_count, channel) == routed(
            block,
            0,
            channel_count,
            lane(start, channel_count, channel),
        ),
    decreases block.len(),
{
    vstd::arithmetic::div_mod::lemma_mod_bound(channel - start, channel_count);
    if block.len() > 0 {
        lemma_round_robin_from(block.drop_last(), start, channel_count, channel);
        lemma_route_shift(start, channel_count, channel, block.len() - 1);
    }
}

/// Whether sample `index` goes to `channel` from `start` on is whether it goes to the
/// lane of `channel` from channel 0 on.
proof fn lemma_route_shift(start: int, channel_count: int, channel: int, index: int)
    requires
        0 <= start < channel_count,
        0 <= channel < channel_count,
        0 <= index,
    ensures
        (route(start, channel_count, index) == channel) == (route(0, channel_count, index) == lane(
            start,
            channel_count,
            channel,
        )),
{
    let quotient = index / channel_count;
    let rest = index % channel_count;
    vstd::arithmetic::div_mod::lemma_fundamental_div_mod(index, channel_count);
    vstd::arithmetic::div_mod::lemma_mod_bound(index, channel_count);
    vstd::arithmetic::mul::lemma_mul_is_commutative(channel_count, quotient);
    if start + rest < channel_count {
        vstd::arithmetic::div_mod::lemma_fundamental_div_mod_converse(
            start + index,
            channel_count,
            quotient,
            start + rest,
        );
    } else {
        vstd::arithmetic::mul::lemma_mul_is_distributive_add_other_way(channel_count, quotient, 1);
        vstd::arithmetic::div_mod::lemma_fundamental_div_mod_converse(
            start + index,
            channel_count,
            quotient + 1,
            start + rest - channel_count,
        );
    }
    if channel >= start {
        vstd::arithmetic::div_mod::lemma_small_mod((channel - start) as nat, channel_count as nat);
    } else {
        vstd::arithmetic::div_mod::lemma_fundamental_div_mod_converse(
            channel - start,
            channel_count,
            -1,
            channel - start + channel_count,
        );
    }
}

/// One more sample adds one to the share of the channel that it goes to, at the position
/// that the share counted so far, and nothing to the share of any other channel.
proof fn lemma_share_step(len: int, channel_count: int, channel: int)
    requires
        0 <= len,
        0 <= channel < channel_count,
    ensures
        len % channel_count == channel ==> {
            &&& share(len + 1, channel_count, channel) == share(len, channel_count, channel) + 1
            &&& channel + share(len, channel_count, channel) * channel_count == len
        },
        len % channel_count != channel ==> share(len + 1, channel_count, channel) == share(
            len,
            channel_count,
            channel,
        ),
        share(len, channel_count, channel) >= 0,
{
    let quotient = len / channel_count;
    let rest = len % channel_count;
    vstd::arithmetic::div_mod::lemma_fundamental_div_mod(len, channel_count);
    vstd::arithmetic::div_mod::lemma_mod_bound(len, channel_count);
    vstd::arithmetic::div_mod::lemma_div_pos_is_pos(len, channel_count);
    vstd::arithmetic::mul::lemma_mul_is_commutative(channel_count, quotient);
    if rest + 1 < channel_count {
        vstd::arithmetic::div_mod::lemma_fundamental_div_mod_converse(
            len + 1,
            channel_count,
            quotient,
            rest + 1,
        );
    } else {
        vstd::arithmetic::mul::lemma_mul_is_distributive_add_other_way(channel_count, quotient, 1);
        vstd::arithmetic::div_mod::lemma_fundamental_div_mod_converse(
            len + 1,
            channel_count,
            quotient + 1,
            0,
        );
    }
}

/// Every position that the share of a channel counts lies within the samples counted.
proof fn lemma_share_covers(len: int, channel_count: int, channel: int, j: int)
    requires
        0 <= len,
        0 <= channel < channel_count,
        0 <= j < share(len, channel_count, channel),
    ensures
        lane_index(channel_count, channel, j) < len,
{
    let quotient = len / channel_count;
    vstd::arithmetic::div_mod::lemma_fundamental_div_mod(len, channel_count);
    vstd::arithmetic::div_mod::lemma_mod_bound(len, channel_count);
    vstd::arithmetic::mul::lemma_mul_is_commutative(channel_count, quotient);
    if j < quotient {
        vstd::arithmetic::mul::lemma_mul_inequality(j, quotient - 1, channel_count);
        vstd::arithmetic::mul::lemma_mul_is_distributive_add_other_way(channel_count, quotient - 1, 1);
    } else {
        assert(j == quotient);
    }
}

} // verus!

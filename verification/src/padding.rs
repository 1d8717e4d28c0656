//! Padding of a run of samples to a fixed length with the default sample.

use vstd::prelude::*;

verus! {

/// That `padded` is `content` brought to the length `length` with default samples:
/// exactly `length` long, the content first, and a default sample in every position that
/// the content does not reach.
pub open spec fn is_padded<T: Default>(content: Seq<T>, length: nat, padded: Seq<T>) -> bool {
    &&& padded.len() == length
    &&& forall|i: int| 0 <= i < content.len() && i < length ==> #[trigger] padded[i] == content[i]
    &&& forall|i: int|
        content.len() <= i < length ==> call_ensures(T::default, (), #[trigger] padded[i])
}

/// Appends default samples to `samples` until it is `length` long.
pub fn pad_to<T: Default>(samples: &mut Vec<T>, length: usize)
    requires
        old(samples)@.len() <= length,
    ensures
        is_padded(old(samples)@, length as nat, final(samples)@),
{
    let ghost content = samples@;
    while samples.len() < length
        invariant
            content.len() <= samples@.len() <= length,
            forall|i: int| 0 <= i < content.len() ==> #[trigger] samples@[i] == content[i],
            forall|i: int|
                content.len() <= i < samples@.len() ==> call_ensures(
                    T::default,
                    (),
                    #[trigger] samples@[i],
                ),
        decreases length - samples@.len(),
    {
        samples.push(T::default());
    }
}

} // verus!

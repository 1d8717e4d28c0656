//! Interpolation and windowing, generic over the arithmetic of their operands.
//!
//! The functions compute with whatever `+`, `-`, `*` and `/` the operand types bring
//! along, so that the same code serves floating point samples and exact numbers. Their
//! contracts say which operations are applied to which operands and in which order: every
//! intermediate value is an outcome of its operator. For a type whose operators follow
//! their specifications that pins the result down; for floating point numbers it says as
//! much as can be said.

use std::ops::{Add, Div, Mul, Sub};
use vstd::prelude::*;
use vstd::std_specs::ops::{AddSpec, DivSpec, MulSpec, SubSpec};

verus! {

/// A number type that is closed under the four basic operations.
pub trait Scalar: Copy + Add<Output = Self> + Sub<Output = Self> + Mul<Output = Self> + Div<
    Output = Self,
> {

}

impl<T> Scalar for T where
    T: Copy + Add<Output = T> + Sub<Output = T> + Mul<Output = T> + Div<Output = T>,
 {

}

/// That `r` is an outcome of `a + (b - a) * t`: of the subtraction, then the
/// multiplication of the difference by `t`, then the addition of the product to `a`.
pub open spec fn is_lerp<A, B, C, D, E, F>(a: A, b: B, t: F, r: E) -> bool where
    A: Add<D, Output = E> + Copy,
    B: Sub<A, Output = C>,
    C: Mul<F, Output = D>,
 {
    exists|difference: C, step: D|
        {
            &&& #[trigger] call_ensures(B::sub, (b, a), difference)
            &&& #[trigger] call_ensures(C::mul, (difference, t), step)
            &&& call_ensures(A::add, (a, step), r)
        }
}

/// Whether `a + (b - a) * t` can be evaluated: the subtraction takes its operands, the
/// multiplication takes every difference that may come of it, and the addition every
/// product.
pub open spec fn lerp_admits<A, B, C, D, E, F>(a: A, b: B, t: F) -> bool where
    A: Add<D, Output = E> + Copy,
    B: Sub<A, Output = C>,
    C: Mul<F, Output = D>,
 {
    &&& b.sub_req(a)
    &&& forall|difference: C| #[trigger]
        call_ensures(B::sub, (b, a), difference) ==> difference.mul_req(t)
    &&& forall|difference: C, step: D|
        call_ensures(B::sub, (b, a), difference) && #[trigger] call_ensures(
            C::mul,
            (difference, t),
            step,
        ) ==> a.add_req(step)
}

/// The value `a + (b - a) * t` by the specifications of the three operators.
pub open spec fn lerp_spec<A, B, C, D, E, F>(a: A, b: B, t: F) -> E where
    A: Add<D, Output = E> + Copy,
    B: Sub<A, Output = C>,
    C: Mul<F, Output = D>,
 {
    a.add_spec(b.sub_spec(a).mul_spec(t))
}

/// Where the three operators follow their specifications, an interpolation has one
/// outcome only: the value of `a + (b - a) * t`.
pub proof fn lemma_lerp_exact<A, B, C, D, E, F>(a: A, b: B, t: F, r: E) where
    A: Add<D, Output = E> + Copy,
    B: Sub<A, Output = C>,
    C: Mul<F, Output = D>,

    requires
        is_lerp::<A, B, C, D, E, F>(a, b, t, r),
        B::obeys_sub_spec(),
        C::obeys_mul_spec(),
        A::obeys_add_spec(),
    ensures
        r == lerp_spec::<A, B, C, D, E, F>(a, b, t),
{
}

/// Linear interpolation from `a` towards `b` by the fraction `t`: `a + (b - a) * t`.
pub fn lerp<A, B, C, D, E, F>(a: A, b: B, t: F) -> (r: E) where
    A: Add<D, Output = E> + Copy,
    B: Sub<A, Output = C>,
    C: Mul<F, Output = D>,

    requires
        lerp_admits::<A, B, C, D, E, F>(a, b, t),
    ensures
        is_lerp::<A, B, C, D, E, F>(a, b, t, r),
{
    a + (b - a) * t
}

/// The value that was read, or `wrap` where there was none.
pub open spec fn read_or<T>(value: Option<T>, wrap: T) -> T {
    match value {
        Some(found) => found,
        None => wrap,
    }
}

/// Reads `data` at a fractional position by interpolating between two neighbours.
///
/// `lower` and `upper` are the indices on either side of the position and `fract` is how
/// far the position lies from `lower` towards `upper`. An index at which `data` has no
/// value reads as `wrap`. The result is `low + (high - low) * fract` for the two values
/// read.
pub fn lerp_index_fn<D, T, U, V, F>(data: D, lower: usize, upper: usize, fract: F, wrap: T) -> (r:
    T) where
    D: Fn(usize) -> Option<T>,
    T: Sub<T, Output = U> + Add<V, Output = T> + Copy,
    U: Mul<F, Output = V>,

    requires
        call_requires(data, (lower,)),
        call_requires(data, (upper,)),
        forall|low: Option<T>, high: Option<T>|
            #[trigger] call_ensures(data, (lower,), low) && #[trigger] call_ensures(
                data,
                (upper,),
                high,
            ) ==> lerp_admits::<T, T, U, V, T, F>(read_or(low, wrap), read_or(high, wrap), fract),
    ensures
        exists|low: Option<T>, high: Option<T>|
            {
                &&& #[trigger] call_ensures(data, (lower,), low)
                &&& #[trigger] call_ensures(data, (upper,), high)
                &&& is_lerp::<T, T, U, V, T, F>(
                    read_or(low, wrap),
                    read_or(high, wrap),
                    fract,
                    r,
                )
            },
{
    let low = data(lower);
    let high = data(upper);
    let min = match low {
        Some(found) => found,
        None => wrap,
    };
    let max = match high {
        Some(found) => found,
        None => wrap,
    };
    lerp(min, max, fract)
}

/// That `r` is an outcome of `numerator / denominator * factor`: of the division, then
/// the multiplication of the quotient by `factor`.
pub open spec fn is_scaled_ratio<T: Scalar>(numerator: T, denominator: T, factor: T, r: T) -> bool {
    exists|quotient: T|
        {
            &&& #[trigger] call_ensures(T::div, (numerator, denominator), quotient)
            &&& call_ensures(T::mul, (quotient, factor), r)
        }
}

/// Whether `numerator / denominator * factor` can be evaluated: the division takes its
/// operands, and the multiplication every quotient that may come of it.
pub open spec fn scaled_ratio_admits<T: Scalar>(numerator: T, denominator: T, factor: T) -> bool {
    &&& numerator.div_req(denominator)
    &&& forall|quotient: T| #[trigger]
        call_ensures(T::div, (numerator, denominator), quotient) ==> quotient.mul_req(factor)
}

/// `numerator / denominator * factor`.
pub fn scaled_ratio<T: Scalar>(numerator: T, denominator: T, factor: T) -> (r: T)
    requires
        scaled_ratio_admits(numerator, denominator, factor),
    ensures
        is_scaled_ratio(numerator, denominator, factor, r),
{
    let quotient = numerator / denominator;
    quotient * factor
}

/// That `weighted` is an outcome of multiplying `sample` by a weight that `weight` may
/// give for position `index` of `size`.
pub open spec fn weighs<T, X, W>(
    sample: T,
    index: usize,
    size: usize,
    weight: &W,
    weighted: T,
) -> bool where T: Mul<X, Output = T>, W: Fn(usize, usize) -> X {
    exists|factor: X|
        {
            &&& #[trigger] call_ensures(*weight, (index, size), factor)
            &&& call_ensures(T::mul, (sample, factor), weighted)
        }
}

/// That `windowed` is `samples` with a window of the given size applied: as long as
/// `samples`, each sample times the weight of its position.
pub open spec fn is_windowed<T, X, W>(
    samples: Seq<T>,
    size: usize,
    weight: &W,
    windowed: Seq<T>,
) -> bool where T: Mul<X, Output = T>, W: Fn(usize, usize) -> X {
    &&& windowed.len() == samples.len()
    &&& forall|i: int|
        0 <= i < samples.len() ==> weighs(samples[i], i as usize, size, weight, #[trigger] windowed[i])
}

/// Whether a window of the given size can be applied to `samples`: `weight` can be called
/// for each position, and each sample can be multiplied by every weight that its position
/// may get.
pub open spec fn window_admits<T, X, W>(samples: Seq<T>, size: usize, weight: &W) -> bool where
    T: Mul<X, Output = T>,
    W: Fn(usize, usize) -> X,
 {
    forall|index: usize|
        index < samples.len() ==> {
            &&& #[trigger] call_requires(*weight, (index, size))
            &&& forall|factor: X| #[trigger]
                call_ensures(*weight, (index, size), factor) ==> samples[index as int].mul_req(
                    factor,
                )
        }
}

/// Applies a window in place: the sample at position `i` is multiplied by
/// `weight(i, size)`.
pub fn apply_window<T, X, W>(data: &mut Vec<T>, size: usize, weight: &W) where
    T: Mul<X, Output = T> + Copy,
    W: Fn(usize, usize) -> X,

    requires
        window_admits::<T, X, W>(old(data)@, size, weight),
    ensures
        is_windowed(old(data)@, size, weight, final(data)@),
{
    let mut i: usize = 0;
    while i < data.len()
        invariant
            i <= data@.len(),
            data@.len() == old(data)@.len(),
            window_admits::<T, X, W>(old(data)@, size, weight),
            forall|k: int|
                0 <= k < i ==> weighs(old(data)@[k], k as usize, size, weight, #[trigger] data@[k]),
            forall|k: int| i <= k < data@.len() ==> data@[k] == old(data)@[k],
        decreases data@.len() - i,
    {
        assert(call_requires(*weight, (i, size)));
        let factor = weight(i, size);
        let weighted = data[i] * factor;
        data.set(i, weighted);
        assert(weighs(old(data)@[i as int], i, size, weight, weighted));
        i += 1;
    }
}

} // verus!

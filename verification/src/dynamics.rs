//! Weights for resonators that are given by their frequency alone.

use crate::arithmetic::{suggested_alpha, Arithmetic};
use crate::number::Binary32;
use vstd::prelude::*;

verus! {

/// For each frequency, in order, a weight that suits a resonator tuned to it.
pub fn heuristic_alphas<A: Arithmetic>(freqs: &[Binary32], sample_rate: Binary32) -> (alphas: Vec<
    Binary32,
>)
    ensures
        alphas@.len() == freqs@.len(),
        forall|i: int|
            0 <= i < freqs@.len() ==> suggested_alpha::<A>(
                freqs@[i],
                sample_rate,
                #[trigger] alphas@[i],
            ),
{
    let mut alphas: Vec<Binary32> = Vec::with_capacity(freqs.len());
    let mut i: usize = 0;
    while i < freqs.len()
        invariant
            i <= freqs.len(),
            alphas@.len() == i,
            forall|j: int|
                0 <= j < i ==> suggested_alpha::<A>(
                    freqs@[j],
                    sample_rate,
                    #[trigger] alphas@[j],
                ),
        decreases freqs.len() - i,
    {
        alphas.push(A::heuristic_alpha(freqs[i], sample_rate));
        i = i + 1;
    }
    alphas
}

} // verus!

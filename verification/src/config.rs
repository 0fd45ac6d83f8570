//! What one resonator is made from.

use crate::number::Binary32;
use vstd::prelude::*;

verus! {

/// The parameters of one resonator.
#[derive(Clone, Copy, Debug, PartialEq, Eq, Structural)]
pub struct ResonatorConfig {
    /// Resonant frequency, in Hz.
    pub freq: Binary32,
    /// Weight of a new sample in the accumulated output.
    pub alpha: Binary32,
    /// Weight of the accumulated output in the smoothed output.
    pub beta: Binary32,
}

impl ResonatorConfig {
    /// The config with the given frequency and weights.
    pub fn new(freq: Binary32, alpha: Binary32, beta: Binary32) -> (config: Self)
        ensures
            config == (ResonatorConfig { freq, alpha, beta }),
    {
        ResonatorConfig { freq, alpha, beta }
    }
}

/// One config for each frequency that has a weight beside it; the weight is
/// used both for the accumulation and for the smoothing.
pub open spec fn paired_configs(freqs: Seq<Binary32>, alphas: Seq<Binary32>) -> Seq<
    ResonatorConfig,
> {
    let n = if freqs.len() <= alphas.len() {
        freqs.len()
    } else {
        alphas.len()
    };
    Seq::new(n, |k: int| ResonatorConfig { freq: freqs[k], alpha: alphas[k], beta: alphas[k] })
}

/// Pairs each frequency with the weight beside it, up to the shorter of the
/// two slices.
pub fn pair_configs(freqs: &[Binary32], alphas: &[Binary32]) -> (configs: Vec<ResonatorConfig>)
    ensures
        configs@ == paired_configs(freqs@, alphas@),
{
    let mut configs: Vec<ResonatorConfig> = Vec::new();
    let mut k: usize = 0;
    while k < freqs.len() && k < alphas.len()
        invariant
            k <= freqs.len(),
            k <= alphas.len(),
            configs@ == paired_configs(freqs@, alphas@).take(k as int),
        decreases freqs.len() - k,
    {
        configs.push(ResonatorConfig::new(freqs[k], alphas[k], alphas[k]));
        k = k + 1;
    }
    configs
}

} // verus!

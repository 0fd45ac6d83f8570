//! What a bank is and how it evolves, as relations between its states.
//!
//! Each relation holds of the states before and after an operation when the
//! second is one that the operation may lead to, whatever the arithmetic
//! returned on the way. The structs whose names end in `Work` hold the
//! intermediate results of one such computation.

use crate::arithmetic::{
    Arithmetic, cosine, difference, difference_x4, direction, multiply_add, multiply_add_x4, product,
    product_x4, quotient, sine, square_root, suggested_alpha, sum, sum_x4,
};
use crate::config::ResonatorConfig;
use crate::number::{minus_two, one, pi, zero, Binary32, Complex, Lanes};
use vstd::prelude::*;

verus! {

/// The phasors of a bank are brought back to unit length each time the number
/// of samples seen since the last reset is a multiple of this.
pub const STABILIZE_EVERY: u64 = 512;

/// One resonator of a bank.
pub struct Bin {
    /// Resonant frequency, in Hz.
    pub freq: Binary32,
    /// Weight of a new sample in `r`.
    pub alpha: Binary32,
    /// Weight of `r` in `rr`.
    pub beta: Binary32,
    /// The rotation that one sample applies to `z`.
    pub w: Complex,
    /// The phasor.
    pub z: Complex,
    /// The accumulated output.
    pub r: Complex,
    /// The smoothed output, which is what a bank reports.
    pub rr: Complex,
}

/// Four resonators, field by field.
pub struct BinX4 {
    pub alpha: Lanes,
    pub beta: Lanes,
    pub w_re: Lanes,
    pub w_im: Lanes,
    pub z_re: Lanes,
    pub z_im: Lanes,
    pub r_re: Lanes,
    pub r_im: Lanes,
    pub rr_re: Lanes,
    pub rr_im: Lanes,
}

/// A whole bank.
#[verifier::ext_equal]
pub struct BankState {
    /// The resonators, in the order of the configs they were made from.
    pub bins: Seq<Bin>,
    /// The number of samples seen since the last reset.
    pub count: nat,
}

/// Which code path updates the resonators.
pub enum Path {
    /// Four resonators at a time, then what is left over one at a time.
    Simd,
    /// One resonator at a time.
    Scalar,
}

/// The complex number zero.
pub open spec fn origin() -> Complex {
    Complex { re: zero(), im: zero() }
}

/// The complex number one.
pub open spec fn unit() -> Complex {
    Complex { re: one(), im: zero() }
}

impl Bin {
    /// The resonator as it is before any sample.
    pub open spec fn at_rest(self) -> Bin {
        Bin { z: unit(), r: origin(), rr: origin(), ..self }
    }

    /// The resonator with both outputs scaled by `c`.
    pub open spec fn scaled(self, c: spec_fn(Binary32) -> Binary32) -> Bin {
        Bin { r: self.r.scaled(c), rr: self.rr.scaled(c), ..self }
    }

    /// The two resonators are tuned alike.
    pub open spec fn same_tuning(self, other: Bin) -> bool {
        &&& self.freq == other.freq
        &&& self.alpha == other.alpha
        &&& self.beta == other.beta
        &&& self.w == other.w
    }
}

impl BankState {
    /// The bank as it is before any sample.
    pub open spec fn at_rest(self) -> BankState {
        BankState { bins: self.bins.map_values(|b: Bin| b.at_rest()), count: 0 }
    }

    /// The two banks hold the same resonators, up to what samples change.
    pub open spec fn same_tuning(self, other: BankState) -> bool {
        &&& self.bins.len() == other.bins.len()
        &&& forall|k: int|
            0 <= k < self.bins.len() ==> #[trigger] self.bins[k].same_tuning(other.bins[k])
    }

    /// The two banks hold the same resonators in the same phase, up to their
    /// outputs.
    pub open spec fn same_phasors(self, other: BankState) -> bool {
        &&& self.same_tuning(other)
        &&& forall|k: int|
            0 <= k < self.bins.len() ==> (#[trigger] self.bins[k]).z == other.bins[k].z
    }

    /// The bank with the outputs of every resonator scaled by `c`.
    pub open spec fn scaled(self, c: spec_fn(Binary32) -> Binary32) -> BankState {
        BankState { bins: self.bins.map_values(|b: Bin| b.scaled(c)), count: self.count }
    }

    /// The bank that holds resonator `k` alone.
    pub open spec fn only(self, k: int) -> BankState {
        BankState { bins: seq![self.bins[k]], count: self.count }
    }
}

// ---------------------------------------------------------------------------
// Construction
// ---------------------------------------------------------------------------

pub struct AngleWork {
    pub minus_two_pi: Binary32,
    pub turn: Binary32,
    pub angle: Binary32,
}

/// `t.angle` is `-2 * pi * freq / sample_rate`, the angle by which a phasor
/// turns from one sample to the next.
pub open spec fn phasor_angle<A: Arithmetic>(
    freq: Binary32,
    sample_rate: Binary32,
    t: AngleWork,
) -> bool {
    &&& product::<A>(minus_two(), pi(), t.minus_two_pi)
    &&& product::<A>(t.minus_two_pi, freq, t.turn)
    &&& quotient::<A>(t.turn, sample_rate, t.angle)
}

/// `w` is the unit phasor at the phasor angle.
pub open spec fn rotation<A: Arithmetic>(
    freq: Binary32,
    sample_rate: Binary32,
    w: Complex,
) -> bool {
    exists|t: AngleWork| #[trigger]
        phasor_angle::<A>(freq, sample_rate, t) && cosine::<A>(t.angle, w.re) && sine::<A>(
            t.angle,
            w.im,
        )
}

/// `bin` is a resonator made from `config`, before any sample.
pub open spec fn tuned<A: Arithmetic>(
    config: ResonatorConfig,
    sample_rate: Binary32,
    bin: Bin,
) -> bool {
    &&& bin.freq == config.freq
    &&& bin.alpha == config.alpha
    &&& bin.beta == config.beta
    &&& rotation::<A>(config.freq, sample_rate, bin.w)
    &&& bin == bin.at_rest()
}

/// `bank` holds one resonator per config and has seen no sample.
pub open spec fn built<A: Arithmetic>(
    configs: Seq<ResonatorConfig>,
    sample_rate: Binary32,
    bank: BankState,
) -> bool {
    &&& bank.count == 0
    &&& bank.bins.len() == configs.len()
    &&& forall|k: int|
        0 <= k < configs.len() ==> tuned::<A>(#[trigger] configs[k], sample_rate, bank.bins[k])
}

/// `bank` holds one resonator per frequency, in order, and has seen no sample.
/// Both weights of a resonator are what the arithmetic suggests for its
/// frequency.
pub open spec fn built_from_frequencies<A: Arithmetic>(
    freqs: Seq<Binary32>,
    sample_rate: Binary32,
    bank: BankState,
) -> bool {
    &&& bank.count == 0
    &&& bank.bins.len() == freqs.len()
    &&& forall|i: int|
        0 <= i < freqs.len() ==> {
            let bin = #[trigger] bank.bins[i];
            &&& suggested_alpha::<A>(freqs[i], sample_rate, bin.alpha)
            &&& tuned::<A>(
                ResonatorConfig { freq: freqs[i], alpha: bin.alpha, beta: bin.alpha },
                sample_rate,
                bin,
            )
        }
}

// ---------------------------------------------------------------------------
// One sample
// ---------------------------------------------------------------------------

pub struct BinWork {
    pub one_m_alpha: Binary32,
    pub one_m_beta: Binary32,
    pub alpha_sample: Binary32,
    pub alpha_sample_z_re: Binary32,
    pub alpha_sample_z_im: Binary32,
    pub beta_r_re: Binary32,
    pub beta_r_im: Binary32,
    pub z_re_w_re: Binary32,
    pub z_im_w_im: Binary32,
    pub z_re_w_im: Binary32,
    pub z_im_w_re: Binary32,
}

/// One sample takes `pre` to `post`, with `t` as the intermediate results:
///
/// * `r = (1 - alpha) * r + alpha * sample * z`,
/// * `rr = (1 - beta) * rr + beta * r`, with the new `r`,
/// * `z = z * w`.
pub open spec fn bin_update<A: Arithmetic>(
    pre: Bin,
    sample: Binary32,
    t: BinWork,
    post: Bin,
) -> bool {
    &&& difference::<A>(one(), pre.alpha, t.one_m_alpha)
    &&& difference::<A>(one(), pre.beta, t.one_m_beta)
    &&& product::<A>(pre.alpha, sample, t.alpha_sample)
    // accumulation
    &&& product::<A>(t.alpha_sample, pre.z.re, t.alpha_sample_z_re)
    &&& product::<A>(t.alpha_sample, pre.z.im, t.alpha_sample_z_im)
    &&& multiply_add::<A>(t.one_m_alpha, pre.r.re, t.alpha_sample_z_re, post.r.re)
    &&& multiply_add::<A>(t.one_m_alpha, pre.r.im, t.alpha_sample_z_im, post.r.im)
    // smoothing
    &&& product::<A>(pre.beta, post.r.re, t.beta_r_re)
    &&& product::<A>(pre.beta, post.r.im, t.beta_r_im)
    &&& multiply_add::<A>(t.one_m_beta, pre.rr.re, t.beta_r_re, post.rr.re)
    &&& multiply_add::<A>(t.one_m_beta, pre.rr.im, t.beta_r_im, post.rr.im)
    // rotation
    &&& product::<A>(pre.z.re, pre.w.re, t.z_re_w_re)
    &&& product::<A>(pre.z.im, pre.w.im, t.z_im_w_im)
    &&& difference::<A>(t.z_re_w_re, t.z_im_w_im, post.z.re)
    &&& product::<A>(pre.z.re, pre.w.im, t.z_re_w_im)
    &&& product::<A>(pre.z.im, pre.w.re, t.z_im_w_re)
    &&& sum::<A>(t.z_re_w_im, t.z_im_w_re, post.z.im)
}

/// One sample takes the resonator `pre` to `post`.
pub open spec fn bin_step<A: Arithmetic>(pre: Bin, sample: Binary32, post: Bin) -> bool {
    &&& pre.same_tuning(post)
    &&& exists|t: BinWork| #[trigger] bin_update::<A>(pre, sample, t, post)
}

pub struct BinWorkX4 {
    pub one_m_alpha: Lanes,
    pub one_m_beta: Lanes,
    pub alpha_sample: Lanes,
    pub alpha_sample_z_re: Lanes,
    pub alpha_sample_z_im: Lanes,
    pub beta_r_re: Lanes,
    pub beta_r_im: Lanes,
    pub z_re_w_re: Lanes,
    pub z_im_w_im: Lanes,
    pub z_re_w_im: Lanes,
    pub z_im_w_re: Lanes,
}

/// One sample takes the four resonators `pre` to `post`, by the formulas of
/// [`bin_update`] on four lanes at a time.
pub open spec fn bin_update_x4<A: Arithmetic>(
    pre: BinX4,
    sample: Binary32,
    t: BinWorkX4,
    post: BinX4,
) -> bool {
    &&& difference_x4::<A>(Lanes::all(one()), pre.alpha, t.one_m_alpha)
    &&& difference_x4::<A>(Lanes::all(one()), pre.beta, t.one_m_beta)
    &&& product_x4::<A>(pre.alpha, Lanes::all(sample), t.alpha_sample)
    // accumulation
    &&& product_x4::<A>(t.alpha_sample, pre.z_re, t.alpha_sample_z_re)
    &&& product_x4::<A>(t.alpha_sample, pre.z_im, t.alpha_sample_z_im)
    &&& multiply_add_x4::<A>(t.one_m_alpha, pre.r_re, t.alpha_sample_z_re, post.r_re)
    &&& multiply_add_x4::<A>(t.one_m_alpha, pre.r_im, t.alpha_sample_z_im, post.r_im)
    // smoothing
    &&& product_x4::<A>(pre.beta, post.r_re, t.beta_r_re)
    &&& product_x4::<A>(pre.beta, post.r_im, t.beta_r_im)
    &&& multiply_add_x4::<A>(t.one_m_beta, pre.rr_re, t.beta_r_re, post.rr_re)
    &&& multiply_add_x4::<A>(t.one_m_beta, pre.rr_im, t.beta_r_im, post.rr_im)
    // rotation
    &&& product_x4::<A>(pre.z_re, pre.w_re, t.z_re_w_re)
    &&& product_x4::<A>(pre.z_im, pre.w_im, t.z_im_w_im)
    &&& difference_x4::<A>(t.z_re_w_re, t.z_im_w_im, post.z_re)
    &&& product_x4::<A>(pre.z_re, pre.w_im, t.z_re_w_im)
    &&& product_x4::<A>(pre.z_im, pre.w_re, t.z_im_w_re)
    &&& sum_x4::<A>(t.z_re_w_im, t.z_im_w_re, post.z_im)
}

/// The four numbers of `f` from index `at` on.
pub open spec fn gather(f: spec_fn(int) -> Binary32, at: int) -> Lanes {
    Lanes { x0: f(at), x1: f(at + 1), x2: f(at + 2), x3: f(at + 3) }
}

/// Resonators `4 * g` to `4 * g + 3`, field by field.
pub open spec fn group(bins: Seq<Bin>, g: int) -> BinX4 {
    BinX4 {
        alpha: gather(|k: int| bins[k].alpha, 4 * g),
        beta: gather(|k: int| bins[k].beta, 4 * g),
        w_re: gather(|k: int| bins[k].w.re, 4 * g),
        w_im: gather(|k: int| bins[k].w.im, 4 * g),
        z_re: gather(|k: int| bins[k].z.re, 4 * g),
        z_im: gather(|k: int| bins[k].z.im, 4 * g),
        r_re: gather(|k: int| bins[k].r.re, 4 * g),
        r_im: gather(|k: int| bins[k].r.im, 4 * g),
        rr_re: gather(|k: int| bins[k].rr.re, 4 * g),
        rr_im: gather(|k: int| bins[k].rr.im, 4 * g),
    }
}

/// One sample takes group `g` of `pre` to group `g` of `post`.
pub open spec fn group_step<A: Arithmetic>(
    pre: Seq<Bin>,
    g: int,
    sample: Binary32,
    post: Seq<Bin>,
) -> bool {
    exists|t: BinWorkX4| #[trigger]
        bin_update_x4::<A>(group(pre, g), sample, t, group(post, g))
}

/// The number of resonators out of `n` that are updated four at a time.
pub open spec fn grouped(path: Path, n: nat) -> nat {
    match path {
        Path::Simd => n / 4 * 4,
        Path::Scalar => 0,
    }
}

/// One sample takes the resonators `pre` to `post`, each on its own data: the
/// leading ones in groups of four where the path has groups, the others one by
/// one.
pub open spec fn bins_step<A: Arithmetic>(
    path: Path,
    pre: Seq<Bin>,
    sample: Binary32,
    post: Seq<Bin>,
) -> bool {
    &&& post.len() == pre.len()
    &&& forall|k: int| 0 <= k < pre.len() ==> #[trigger] pre[k].same_tuning(post[k])
    &&& forall|g: int|
        0 <= 4 * g < grouped(path, pre.len()) ==> #[trigger] group_step::<A>(pre, g, sample, post)
    &&& forall|k: int|
        grouped(path, pre.len()) <= k < pre.len() ==> #[trigger] bin_step::<A>(
            pre[k],
            sample,
            post[k],
        )
}

// ---------------------------------------------------------------------------
// Stabilization
// ---------------------------------------------------------------------------

pub struct StabilizeWork {
    pub re_squared: Binary32,
    pub im_squared: Binary32,
    pub power: Binary32,
    pub magnitude: Binary32,
    pub inv_mag: Binary32,
}

/// `post` is the phasor `pre` scaled by the inverse of its magnitude.
pub open spec fn phasor_stabilized<A: Arithmetic>(
    pre: Complex,
    t: StabilizeWork,
    post: Complex,
) -> bool {
    &&& product::<A>(pre.re, pre.re, t.re_squared)
    &&& product::<A>(pre.im, pre.im, t.im_squared)
    &&& sum::<A>(t.re_squared, t.im_squared, t.power)
    &&& square_root::<A>(t.power, t.magnitude)
    &&& quotient::<A>(one(), t.magnitude, t.inv_mag)
    &&& product::<A>(pre.re, t.inv_mag, post.re)
    &&& product::<A>(pre.im, t.inv_mag, post.im)
}

/// `A` and `B` stabilize a phasor alike.
pub open spec fn stabilizations_agree<A: Arithmetic, B: Arithmetic>() -> bool {
    forall|pre: Complex, s: StabilizeWork, a: Complex, t: StabilizeWork, b: Complex| #[trigger]
        phasor_stabilized::<A>(pre, s, a) && #[trigger] phasor_stabilized::<B>(pre, t, b) ==> a == b
}

/// Stabilization takes the resonator `pre` to `post`: it touches the phasor
/// alone.
pub open spec fn bin_stabilized<A: Arithmetic>(pre: Bin, post: Bin) -> bool {
    &&& post == Bin { z: post.z, ..pre }
    &&& exists|t: StabilizeWork| #[trigger] phasor_stabilized::<A>(pre.z, t, post.z)
}

/// Stabilization takes the resonators `pre` to `post`.
pub open spec fn bins_stabilized<A: Arithmetic>(pre: Seq<Bin>, post: Seq<Bin>) -> bool {
    &&& post.len() == pre.len()
    &&& forall|k: int| 0 <= k < pre.len() ==> #[trigger] bin_stabilized::<A>(pre[k], post[k])
}

/// The phasors are due for stabilization once `count` samples have been seen.
pub open spec fn stabilization_due(count: nat) -> bool {
    count % (STABILIZE_EVERY as nat) == 0
}

// ---------------------------------------------------------------------------
// Samples in a row
// ---------------------------------------------------------------------------

/// The sample that makes the count `count` takes the updated resonators `mid`
/// to `post`: stabilized where that is due, else as they are.
pub open spec fn settled<A: Arithmetic>(mid: Seq<Bin>, count: nat, post: Seq<Bin>) -> bool {
    if stabilization_due(count) {
        bins_stabilized::<A>(mid, post)
    } else {
        post == mid
    }
}

/// One sample takes the bank `pre` to `post`.
pub open spec fn sample_step<A: Arithmetic>(
    path: Path,
    pre: BankState,
    sample: Binary32,
    post: BankState,
) -> bool {
    &&& post.count == pre.count + 1
    &&& exists|mid: Seq<Bin>| #[trigger]
        bins_step::<A>(path, pre.bins, sample, mid) && settled::<A>(mid, post.count, post.bins)
}

/// The samples, fed one by one in order, take the bank `pre` to `post`.
pub open spec fn processed<A: Arithmetic>(
    path: Path,
    pre: BankState,
    samples: Seq<Binary32>,
    post: BankState,
) -> bool
    decreases samples.len(),
{
    if samples.len() == 0 {
        post == pre
    } else {
        exists|mid: BankState|
            processed::<A>(path, pre, samples.drop_last(), mid) && #[trigger] sample_step::<A>(
                path,
                mid,
                samples.last(),
                post,
            )
    }
}

// ---------------------------------------------------------------------------
// Hops
// ---------------------------------------------------------------------------

/// The number of whole hops in a signal.
pub open spec fn frame_count(signal: Seq<Binary32>, hop: int) -> nat {
    (signal.len() as int / hop) as nat
}

/// The samples of hop `f`.
pub open spec fn frame(signal: Seq<Binary32>, hop: int, f: int) -> Seq<Binary32> {
    signal.subrange(f * hop, f * hop + hop)
}

/// Hop `f` takes `states[f]` to `states[f + 1]`.
pub open spec fn hop_step<A: Arithmetic>(
    signal: Seq<Binary32>,
    hop: int,
    states: Seq<BankState>,
    f: int,
) -> bool {
    processed::<A>(Path::Simd, states[f], frame(signal, hop, f), states[f + 1])
}

/// `states` holds the bank `pre`, then the bank at the end of each whole hop
/// of the signal.
pub open spec fn hops<A: Arithmetic>(
    pre: BankState,
    signal: Seq<Binary32>,
    hop: int,
    states: Seq<BankState>,
) -> bool {
    &&& states.len() == frame_count(signal, hop) + 1
    &&& states[0] == pre
    &&& forall|f: int|
        0 <= f < frame_count(signal, hop) ==> #[trigger] hop_step::<A>(signal, hop, states, f)
}

/// Where the reading of resonator `k` at the end of hop `f` stands, for `bins`
/// resonators.
pub open spec fn cell(bins: int, f: int, k: int) -> int {
    f * bins + k
}

/// `out` holds, row after row, the readings of all resonators at the end of
/// each hop.
pub open spec fn spectrogram(states: Seq<BankState>, bins: nat, out: Seq<Complex>) -> bool {
    &&& out.len() == (states.len() - 1) * bins
    &&& forall|f: int, k: int|
        0 <= f < states.len() - 1 && 0 <= k < bins ==> out[#[trigger] cell(bins as int, f, k)]
            == states[f + 1].bins[k].rr
}

// ---------------------------------------------------------------------------
// Readings
// ---------------------------------------------------------------------------

/// `p` is the squared magnitude of `c`, from the squares `re_squared` and
/// `im_squared`.
pub open spec fn power_sum<A: Arithmetic>(
    c: Complex,
    re_squared: Binary32,
    im_squared: Binary32,
    p: Binary32,
) -> bool {
    &&& product::<A>(c.re, c.re, re_squared)
    &&& product::<A>(c.im, c.im, im_squared)
    &&& sum::<A>(re_squared, im_squared, p)
}

/// `p` is the squared magnitude of `c`.
pub open spec fn power_of<A: Arithmetic>(c: Complex, p: Binary32) -> bool {
    exists|re_squared: Binary32, im_squared: Binary32| #[trigger]
        power_sum::<A>(c, re_squared, im_squared, p)
}

/// `m` is the magnitude of `c`.
pub open spec fn magnitude_of<A: Arithmetic>(c: Complex, m: Binary32) -> bool {
    exists|p: Binary32| #[trigger] power_of::<A>(c, p) && square_root::<A>(p, m)
}

/// `p` is the phase of `c`.
pub open spec fn phase_of<A: Arithmetic>(c: Complex, p: Binary32) -> bool {
    direction::<A>(c.im, c.re, p)
}

} // verus!

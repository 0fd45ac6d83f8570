//! The bank itself.

use crate::arithmetic::{
    direction, square_root, suggested_alpha, sum, Arithmetic,
};
use crate::config::{pair_configs, ResonatorConfig};
use crate::dynamics::heuristic_alphas;
use crate::hand::{rotation_by_hand, sum_of_squares, turns_by_the_angle};
use crate::laws::{
    frame_bounds, hops_are_one_block, one_more_sample, sample_keeps_tuning, tuning_is_kept,
};
use crate::model::{
    bin_stabilized, bin_step, bin_update, bin_update_x4, bins_stabilized, bins_step, built,
    built_from_frequencies, cell,
    frame_count, gather, group, group_step, hop_step, hops, magnitude_of, phase_of, phasor_angle,
    phasor_stabilized, power_of, power_sum, processed, rotation, sample_step, settled, spectrogram,
    stabilization_due, tuned, AngleWork, BankState, Bin, BinWork, BinWorkX4, BinX4, Path,
    StabilizeWork, STABILIZE_EVERY,
};
use crate::number::{
    one, Binary32, Complex, Lanes, MINUS_TWO_BITS, ONE_BITS, PI_BITS, ZERO_BITS,
};
use vstd::prelude::*;

verus! {

/// Loads four numbers in a row, starting at `buf[offset]`.
fn load_f32x4(buf: &Vec<Binary32>, offset: usize) -> (lanes: Lanes)
    requires
        offset + 4 <= buf.len(),
    ensures
        lanes == gather(|k: int| buf@[k], offset as int),
{
    Lanes { x0: buf[offset], x1: buf[offset + 1], x2: buf[offset + 2], x3: buf[offset + 3] }
}

/// Stores four numbers in a row, starting at `buf[offset]`.
fn store_f32x4(buf: &mut Vec<Binary32>, offset: usize, value: Lanes)
    requires
        offset + 4 <= old(buf).len(),
    ensures
        final(buf)@.len() == old(buf)@.len(),
        value == gather(|k: int| final(buf)@[k], offset as int),
        forall|k: int|
            0 <= k < old(buf)@.len() && !(offset <= k < offset + 4) ==> #[trigger] final(buf)@[k]
                == old(buf)@[k],
{
    buf.set(offset, value.x0);
    buf.set(offset + 1, value.x1);
    buf.set(offset + 2, value.x2);
    buf.set(offset + 3, value.x3);
}

/// Overwrites every element with `value`.
fn fill(buf: &mut Vec<Binary32>, value: Binary32)
    ensures
        final(buf)@ == Seq::new(old(buf)@.len(), |k: int| value),
{
    let mut k: usize = 0;
    let n: usize = buf.len();
    while k < n
        invariant
            k <= n,
            n == buf@.len(),
            n == old(buf)@.len(),
            forall|j: int| 0 <= j < k ==> buf@[j] == value,
        decreases n - k,
    {
        buf.set(k, value);
        k = k + 1;
    }
}

/// A vector of `n` times `value`.
fn filled(n: usize, value: Binary32) -> (buf: Vec<Binary32>)
    ensures
        buf@ == Seq::new(n as nat, |k: int| value),
{
    let mut buf: Vec<Binary32> = Vec::with_capacity(n);
    let mut k: usize = 0;
    while k < n
        invariant
            k <= n,
            buf@ == Seq::new(k as nat, |j: int| value),
        decreases n - k,
    {
        buf.push(value);
        k = k + 1;
    }
    buf
}

/// The cells of earlier rows come before those of row `rows`.
proof fn cell_bounds(bins: int, f: int, k: int, rows: int)
    requires
        0 <= f < rows,
        0 <= k < bins,
    ensures
        0 <= cell(bins, f, k) < rows * bins,
{
    assert(0 <= f * bins + k < rows * bins) by (nonlinear_arith)
        requires
            0 <= f < rows,
            0 <= k < bins,
    ;
}

/// A group depends on its own four resonators alone.
proof fn group_of_equal_bins(a: Seq<Bin>, b: Seq<Bin>, g: int)
    requires
        forall|j: int| 4 * g <= j < 4 * g + 4 ==> #[trigger] a[j] == b[j],
    ensures
        group(a, g) == group(b, g),
{
    assert(a[4 * g] == b[4 * g]);
    assert(a[4 * g + 1] == b[4 * g + 1]);
    assert(a[4 * g + 2] == b[4 * g + 2]);
    assert(a[4 * g + 3] == b[4 * g + 3]);
}

/// A bank of independent resonators, each tuned to a fixed frequency.
///
/// Construct with [`from_frequencies`](ResonatorBank::from_frequencies) for
/// the common case, or [`new`](ResonatorBank::new) for custom per-resonator
/// parameters. Feed samples in one at a time with
/// [`process_sample`](ResonatorBank::process_sample) or in chunks with
/// [`process_samples`](ResonatorBank::process_samples). Read per-bin
/// magnitudes, powers, phases, or complex values at any time. For one-shot
/// processing of a full signal into a spectrogram-like output, use
/// [`resonate`](ResonatorBank::resonate).
#[derive(Debug)]
pub struct ResonatorBank {
    n_resonators: usize,
    frequencies: Vec<Binary32>,
    alphas: Vec<Binary32>,
    betas: Vec<Binary32>,
    // phasor state, rotates by the phasor angle (w) each sample
    z_re: Vec<Binary32>,
    z_im: Vec<Binary32>,
    // rotation by the phasor angle, constant
    w_re: Vec<Binary32>,
    w_im: Vec<Binary32>,
    // raw output of the accumulation
    r_re: Vec<Binary32>,
    r_im: Vec<Binary32>,
    // smoothed output
    rr_re: Vec<Binary32>,
    rr_im: Vec<Binary32>,
    // tracked for stabilization
    sample_count: u64,
}

impl View for ResonatorBank {
    type V = BankState;

    closed spec fn view(&self) -> BankState {
        BankState { bins: self.bins(), count: self.sample_count as nat }
    }
}

impl ResonatorBank {
    /// Every buffer holds one number per resonator.
    pub closed spec fn wf(&self) -> bool {
        &&& self.frequencies@.len() == self.n_resonators
        &&& self.alphas@.len() == self.n_resonators
        &&& self.betas@.len() == self.n_resonators
        &&& self.z_re@.len() == self.n_resonators
        &&& self.z_im@.len() == self.n_resonators
        &&& self.w_re@.len() == self.n_resonators
        &&& self.w_im@.len() == self.n_resonators
        &&& self.r_re@.len() == self.n_resonators
        &&& self.r_im@.len() == self.n_resonators
        &&& self.rr_re@.len() == self.n_resonators
        &&& self.rr_im@.len() == self.n_resonators
    }

    /// The lengths of the buffers that hold the resonators.
    pub closed spec fn buffer_lengths(&self) -> Seq<nat> {
        seq![
            self.frequencies@.len(),
            self.alphas@.len(),
            self.betas@.len(),
            self.z_re@.len(),
            self.z_im@.len(),
            self.w_re@.len(),
            self.w_im@.len(),
            self.r_re@.len(),
            self.r_im@.len(),
            self.rr_re@.len(),
            self.rr_im@.len(),
        ]
    }

    /// Each of the eleven buffers holds one number per resonator. Every
    /// operation keeps the bank well-formed, so this holds after any of them.
    pub proof fn buffers_hold_every_resonator(&self)
        requires
            self.wf(),
        ensures
            self.buffer_lengths().len() == 11,
            forall|i: int|
                0 <= i < 11 ==> #[trigger] self.buffer_lengths()[i] == self@.bins.len(),
    {
    }

    /// The sample count and the number of resonators fit in the machine.
    pub proof fn sizes_fit(&self)
        requires
            self.wf(),
        ensures
            self@.count <= u64::MAX,
            self@.bins.len() <= usize::MAX,
    {
    }

    /// Resonator `k`.
    spec fn bin(&self, k: int) -> Bin {
        Bin {
            freq: self.frequencies@[k],
            alpha: self.alphas@[k],
            beta: self.betas@[k],
            w: Complex { re: self.w_re@[k], im: self.w_im@[k] },
            z: Complex { re: self.z_re@[k], im: self.z_im@[k] },
            r: Complex { re: self.r_re@[k], im: self.r_im@[k] },
            rr: Complex { re: self.rr_re@[k], im: self.rr_im@[k] },
        }
    }

    /// All resonators.
    spec fn bins(&self) -> Seq<Bin> {
        Seq::new(self.n_resonators as nat, |k: int| self.bin(k))
    }

    /// Updates the four resonators from `k` on with one sample.
    fn process_group<A: Arithmetic>(&mut self, k: usize, sample_v: Lanes, one_v: Lanes)
        requires
            old(self).wf(),
            k % 4 == 0,
            k + 4 <= old(self)@.bins.len(),
            one_v == Lanes::all(one()),
            sample_v == Lanes::all(sample_v.x0),
        ensures
            final(self).wf(),
            final(self)@.bins.len() == old(self)@.bins.len(),
            final(self)@.count == old(self)@.count,
            group_step::<A>(old(self)@.bins, k as int / 4, sample_v.x0, final(self)@.bins),
            forall|j: int|
                k <= j < k + 4 ==> #[trigger] old(self)@.bins[j].same_tuning(final(self)@.bins[j]),
            forall|j: int|
                0 <= j < old(self)@.bins.len() && !(k <= j < k + 4)
                    ==> #[trigger] final(self)@.bins[j] == old(self)@.bins[j],
    {
        let alpha: Lanes = load_f32x4(&self.alphas, k);
        let beta: Lanes = load_f32x4(&self.betas, k);
        let z_re: Lanes = load_f32x4(&self.z_re, k);
        let z_im: Lanes = load_f32x4(&self.z_im, k);
        let r_re_old: Lanes = load_f32x4(&self.r_re, k);
        let r_im_old: Lanes = load_f32x4(&self.r_im, k);
        let rr_re_old: Lanes = load_f32x4(&self.rr_re, k);
        let rr_im_old: Lanes = load_f32x4(&self.rr_im, k);
        let w_re: Lanes = load_f32x4(&self.w_re, k);
        let w_im: Lanes = load_f32x4(&self.w_im, k);

        let one_m_alpha: Lanes = A::minus_x4(one_v, alpha);
        let one_m_beta: Lanes = A::minus_x4(one_v, beta);
        let alpha_sample: Lanes = A::times_x4(alpha, sample_v);

        // accumulation: r = (1 - alpha) * r_prev + alpha_sample * z
        let alpha_sample_z_re: Lanes = A::times_x4(alpha_sample, z_re);
        let alpha_sample_z_im: Lanes = A::times_x4(alpha_sample, z_im);
        let r_re: Lanes = A::mul_add_x4(one_m_alpha, r_re_old, alpha_sample_z_re);
        let r_im: Lanes = A::mul_add_x4(one_m_alpha, r_im_old, alpha_sample_z_im);

        // output smoothing: rr = (1 - beta) * rr_prev + beta * r
        let beta_r_re: Lanes = A::times_x4(beta, r_re);
        let beta_r_im: Lanes = A::times_x4(beta, r_im);
        let rr_re: Lanes = A::mul_add_x4(one_m_beta, rr_re_old, beta_r_re);
        let rr_im: Lanes = A::mul_add_x4(one_m_beta, rr_im_old, beta_r_im);

        // phasor rotation: z_new = z * w (complex multiply)
        let z_re_w_re: Lanes = A::times_x4(z_re, w_re);
        let z_im_w_im: Lanes = A::times_x4(z_im, w_im);
        let z_re_new: Lanes = A::minus_x4(z_re_w_re, z_im_w_im);
        let z_re_w_im: Lanes = A::times_x4(z_re, w_im);
        let z_im_w_re: Lanes = A::times_x4(z_im, w_re);
        let z_im_new: Lanes = A::plus_x4(z_re_w_im, z_im_w_re);

        store_f32x4(&mut self.r_re, k, r_re);
        store_f32x4(&mut self.r_im, k, r_im);
        store_f32x4(&mut self.rr_re, k, rr_re);
        store_f32x4(&mut self.rr_im, k, rr_im);
        store_f32x4(&mut self.z_re, k, z_re_new);
        store_f32x4(&mut self.z_im, k, z_im_new);

        proof {
            let t = BinWorkX4 {
                one_m_alpha,
                one_m_beta,
                alpha_sample,
                alpha_sample_z_re,
                alpha_sample_z_im,
                beta_r_re,
                beta_r_im,
                z_re_w_re,
                z_im_w_im,
                z_re_w_im,
                z_im_w_re,
            };
            let g = k as int / 4;
            assert(4 * g == k);
            assert(group(old(self)@.bins, g) == BinX4 {
                alpha,
                beta,
                w_re,
                w_im,
                z_re,
                z_im,
                r_re: r_re_old,
                r_im: r_im_old,
                rr_re: rr_re_old,
                rr_im: rr_im_old,
            });
            assert(group(self@.bins, g) == BinX4 {
                alpha,
                beta,
                w_re,
                w_im,
                z_re: z_re_new,
                z_im: z_im_new,
                r_re,
                r_im,
                rr_re,
                rr_im,
            });
            assert(bin_update_x4::<A>(
                group(old(self)@.bins, g),
                sample_v.x0,
                t,
                group(self@.bins, g),
            ));
        }
    }

    /// Updates resonator `k` with one sample.
    fn process_bin<A: Arithmetic>(&mut self, k: usize, sample: Binary32)
        requires
            old(self).wf(),
            k < old(self)@.bins.len(),
        ensures
            final(self).wf(),
            final(self)@.bins.len() == old(self)@.bins.len(),
            final(self)@.count == old(self)@.count,
            bin_step::<A>(old(self)@.bins[k as int], sample, final(self)@.bins[k as int]),
            forall|j: int|
                0 <= j < old(self)@.bins.len() && j != k ==> #[trigger] final(self)@.bins[j]
                    == old(self)@.bins[j],
    {
        let one: Binary32 = Binary32::from_bits(ONE_BITS);
        let alpha: Binary32 = self.alphas[k];
        let beta: Binary32 = self.betas[k];
        let zr: Binary32 = self.z_re[k];
        let zi: Binary32 = self.z_im[k];
        let one_m_alpha: Binary32 = A::minus(one, alpha);
        let one_m_beta: Binary32 = A::minus(one, beta);
        let alpha_sample: Binary32 = A::times(alpha, sample);

        let alpha_sample_z_re: Binary32 = A::times(alpha_sample, zr);
        let alpha_sample_z_im: Binary32 = A::times(alpha_sample, zi);
        let r_re: Binary32 = A::mul_add(one_m_alpha, self.r_re[k], alpha_sample_z_re);
        let r_im: Binary32 = A::mul_add(one_m_alpha, self.r_im[k], alpha_sample_z_im);

        let beta_r_re: Binary32 = A::times(beta, r_re);
        let beta_r_im: Binary32 = A::times(beta, r_im);
        let rr_re: Binary32 = A::mul_add(one_m_beta, self.rr_re[k], beta_r_re);
        let rr_im: Binary32 = A::mul_add(one_m_beta, self.rr_im[k], beta_r_im);

        let z_re_w_re: Binary32 = A::times(zr, self.w_re[k]);
        let z_im_w_im: Binary32 = A::times(zi, self.w_im[k]);
        let z_re: Binary32 = A::minus(z_re_w_re, z_im_w_im);
        let z_re_w_im: Binary32 = A::times(zr, self.w_im[k]);
        let z_im_w_re: Binary32 = A::times(zi, self.w_re[k]);
        let z_im: Binary32 = A::plus(z_re_w_im, z_im_w_re);

        self.r_re.set(k, r_re);
        self.r_im.set(k, r_im);
        self.rr_re.set(k, rr_re);
        self.rr_im.set(k, rr_im);
        self.z_re.set(k, z_re);
        self.z_im.set(k, z_im);

        proof {
            let t = BinWork {
                one_m_alpha,
                one_m_beta,
                alpha_sample,
                alpha_sample_z_re,
                alpha_sample_z_im,
                beta_r_re,
                beta_r_im,
                z_re_w_re,
                z_im_w_im,
                z_re_w_im,
                z_im_w_re,
            };
            assert(bin_update::<A>(old(self)@.bins[k as int], sample, t, self@.bins[k as int]));
        }
    }

    /// Core per-sample update across all bins: four bins at a time, then a
    /// scalar tail for any remainder.
    ///
    /// Does **not** advance the sample count or stabilize: callers do that.
    fn process_sample_inner<A: Arithmetic>(&mut self, sample: Binary32)
        requires
            old(self).wf(),
        ensures
            final(self).wf(),
            bins_step::<A>(Path::Simd, old(self)@.bins, sample, final(self)@.bins),
            final(self)@.count == old(self)@.count,
    {
        let ghost pre = self.bins();
        let n: usize = self.n_resonators;
        let vec_end: usize = n & !3;  // round down to a multiple of 4
        assert(vec_end == n / 4 * 4) by (bit_vector)
            requires
                vec_end == n & !3usize,
        ;

        let sample_v: Lanes = Lanes::splat(sample);
        let one_v: Lanes = Lanes::splat(Binary32::from_bits(ONE_BITS));

        let mut k: usize = 0;
        while k < vec_end
            invariant
                self.wf(),
                self.n_resonators == n,
                self.sample_count == old(self).sample_count,
                pre == old(self).bins(),
                pre.len() == n,
                vec_end == n / 4 * 4,
                k <= vec_end,
                k % 4 == 0,
                sample_v == Lanes::all(sample),
                one_v == Lanes::all(one()),
                forall|j: int| 0 <= j < n ==> #[trigger] pre[j].same_tuning(self.bins()[j]),
                forall|j: int| k <= j < n ==> #[trigger] self.bins()[j] == pre[j],
                forall|g: int|
                    0 <= 4 * g < k ==> #[trigger] group_step::<A>(pre, g, sample, self.bins()),
            decreases vec_end - k,
        {
            let ghost cur = self.bins();
            self.process_group::<A>(k, sample_v, one_v);
            proof {
                group_of_equal_bins(pre, cur, k as int / 4);
                assert forall|g: int| 0 <= 4 * g < k + 4 implies #[trigger] group_step::<A>(
                    pre,
                    g,
                    sample,
                    self.bins(),
                ) by {
                    if 4 * g < k {
                        assert(group_step::<A>(pre, g, sample, cur));
                        group_of_equal_bins(cur, self.bins(), g);
                    }
                }
            }
            k = k + 4;
        }

        while k < n
            invariant
                self.wf(),
                self.n_resonators == n,
                self.sample_count == old(self).sample_count,
                pre == old(self).bins(),
                pre.len() == n,
                vec_end == n / 4 * 4,
                vec_end <= k <= n,
                forall|j: int| 0 <= j < n ==> #[trigger] pre[j].same_tuning(self.bins()[j]),
                forall|j: int| k <= j < n ==> #[trigger] self.bins()[j] == pre[j],
                forall|g: int|
                    0 <= 4 * g < vec_end ==> #[trigger] group_step::<A>(
                        pre,
                        g,
                        sample,
                        self.bins(),
                    ),
                forall|j: int|
                    vec_end <= j < k ==> #[trigger] bin_step::<A>(pre[j], sample, self.bins()[j]),
            decreases n - k,
        {
            let ghost cur = self.bins();
            self.process_bin::<A>(k, sample);
            proof {
                assert forall|g: int| 0 <= 4 * g < vec_end implies #[trigger] group_step::<A>(
                    pre,
                    g,
                    sample,
                    self.bins(),
                ) by {
                    assert(group_step::<A>(pre, g, sample, cur));
                    group_of_equal_bins(cur, self.bins(), g);
                }
            }
            k = k + 1;
        }
    }

    /// Scalar variant of the core update: one bin at a time.
    fn process_sample_inner_scalar<A: Arithmetic>(&mut self, sample: Binary32)
        requires
            old(self).wf(),
        ensures
            final(self).wf(),
            bins_step::<A>(Path::Scalar, old(self)@.bins, sample, final(self)@.bins),
            final(self)@.count == old(self)@.count,
    {
        let ghost pre = self.bins();
        let n: usize = self.n_resonators;
        let mut k: usize = 0;
        while k < n
            invariant
                self.wf(),
                self.n_resonators == n,
                self.sample_count == old(self).sample_count,
                pre == old(self).bins(),
                pre.len() == n,
                k <= n,
                forall|j: int| k <= j < n ==> #[trigger] self.bins()[j] == pre[j],
                forall|j: int|
                    0 <= j < k ==> #[trigger] bin_step::<A>(pre[j], sample, self.bins()[j]),
            decreases n - k,
        {
            self.process_bin::<A>(k, sample);
            k = k + 1;
        }
        assert forall|j: int| 0 <= j < n implies #[trigger] pre[j].same_tuning(self.bins()[j]) by {
            assert(bin_step::<A>(pre[j], sample, self.bins()[j]));
        }
    }

    /// Scales every phasor back to unit length.
    fn stabilize<A: Arithmetic>(&mut self)
        requires
            old(self).wf(),
        ensures
            final(self).wf(),
            bins_stabilized::<A>(old(self)@.bins, final(self)@.bins),
            final(self)@.count == old(self)@.count,
    {
        let ghost pre = self.bins();
        let n: usize = self.n_resonators;
        let one: Binary32 = Binary32::from_bits(ONE_BITS);
        let mut k: usize = 0;
        while k < n
            invariant
                self.wf(),
                self.n_resonators == n,
                self.sample_count == old(self).sample_count,
                pre == old(self).bins(),
                pre.len() == n,
                one == crate::number::one(),
                k <= n,
                forall|j: int| k <= j < n ==> #[trigger] self.bins()[j] == pre[j],
                forall|j: int| 0 <= j < k ==> #[trigger] bin_stabilized::<A>(pre[j], self.bins()[j]),
            decreases n - k,
        {
            let ghost cur = self.bins();
            let z_re: Binary32 = self.z_re[k];
            let z_im: Binary32 = self.z_im[k];
            let re_squared: Binary32 = A::times(z_re, z_re);
            let im_squared: Binary32 = A::times(z_im, z_im);
            let power: Binary32 = A::plus(re_squared, im_squared);
            let magnitude: Binary32 = A::sqrt(power);
            let inv_mag: Binary32 = A::over(one, magnitude);
            self.z_re.set(k, A::times(z_re, inv_mag));
            self.z_im.set(k, A::times(z_im, inv_mag));
            proof {
                let t = StabilizeWork { re_squared, im_squared, power, magnitude, inv_mag };
                assert(cur[k as int] == pre[k as int]);
                assert(phasor_stabilized::<A>(pre[k as int].z, t, self.bins()[k as int].z));
                assert forall|j: int| 0 <= j < n && j != k implies #[trigger] self.bins()[j]
                    == cur[j] by {}
            }
            k = k + 1;
        }
    }

    /// Updates every resonator with a single input sample.
    pub fn process_sample<A: Arithmetic>(&mut self, sample: Binary32)
        requires
            old(self).wf(),
            old(self)@.count < u64::MAX,
        ensures
            final(self).wf(),
            sample_step::<A>(Path::Simd, old(self)@, sample, final(self)@),
            old(self)@.same_tuning(final(self)@),
    {
        self.process_sample_inner::<A>(sample);
        let ghost mid = self@.bins;
        self.sample_count = self.sample_count + 1;
        assert(self@.bins =~= mid);
        if self.sample_count % STABILIZE_EVERY == 0 {
            self.stabilize::<A>();
        }
        proof {
            assert(settled::<A>(mid, self@.count, self@.bins));
            sample_keeps_tuning::<A>(Path::Simd, old(self)@, sample, self@);
        }
    }

    /// Updates every resonator with a block of input samples, in order.
    ///
    /// Amortizes per-sample overhead (stabilization check, function call) by
    /// stabilizing in bulk at fixed boundaries instead of per sample. The
    /// outcome is that of feeding the samples one by one.
    #[verifier::spinoff_prover]
    #[verifier::rlimit(40)]
    pub fn process_samples<A: Arithmetic>(&mut self, samples: &[Binary32])
        requires
            old(self).wf(),
            old(self)@.count + samples@.len() <= u64::MAX,
        ensures
            final(self).wf(),
            processed::<A>(Path::Simd, old(self)@, samples@, final(self)@),
            final(self)@.count == old(self)@.count + samples@.len(),
            old(self)@.same_tuning(final(self)@),
    {
        let ghost pre = self@;
        let mut i: usize = 0;
        assert(samples@.take(0) =~= Seq::empty());
        while i < samples.len()
            invariant
                self.wf(),
                i <= samples.len(),
                pre == old(self)@,
                pre.count + samples@.len() <= u64::MAX,
                self@.count == pre.count + i,
                processed::<A>(Path::Simd, pre, samples@.take(i as int), self@),
            decreases samples.len() - i,
        {
            // How many samples can we process before the next stabilization?
            let until_stabilize: u64 = STABILIZE_EVERY - (self.sample_count % STABILIZE_EVERY);
            let rest: usize = samples.len() - i;
            let take: usize = if rest < until_stabilize as usize {
                rest
            } else {
                until_stabilize as usize
            };
            let ghost start = self@.count;
            let ghost mut last = self@;
            let mut j: usize = 0;
            while j < take
                invariant
                    self.wf(),
                    j <= take <= until_stabilize,
                    i + take <= samples.len(),
                    until_stabilize == STABILIZE_EVERY - start % (STABILIZE_EVERY as nat),
                    self@.count == start,
                    j < until_stabilize ==> processed::<A>(
                        Path::Simd,
                        pre,
                        samples@.take(i + j),
                        BankState { bins: self@.bins, count: start + j as nat },
                    ),
                    j == until_stabilize ==> {
                        &&& processed::<A>(Path::Simd, pre, samples@.take(i + j - 1), last)
                        &&& last.count == start + j - 1
                        &&& bins_step::<A>(
                            Path::Simd,
                            last.bins,
                            samples@[i + j - 1],
                            self@.bins,
                        )
                    },
                decreases take - j,
            {
                proof {
                    last = BankState { bins: self@.bins, count: start + j as nat };
                }
                self.process_sample_inner::<A>(samples[i + j]);
                proof {
                    if j + 1 < until_stabilize {
                        let next = BankState { bins: self@.bins, count: start + j as nat + 1 };
                        assert(!stabilization_due(next.count));
                        assert(settled::<A>(self@.bins, next.count, next.bins));
                        assert(sample_step::<A>(Path::Simd, last, samples@[i + j], next));
                        one_more_sample::<A>(Path::Simd, pre, samples@, i + j, last, next);
                    }
                }
                j = j + 1;
            }
            let ghost mid = self@.bins;
            self.sample_count = self.sample_count + take as u64;
            assert(self@.bins =~= mid);
            if self.sample_count % STABILIZE_EVERY == 0 {
                self.stabilize::<A>();
                proof {
                    assert(take == until_stabilize);
                    assert(settled::<A>(mid, self@.count, self@.bins));
                    assert(sample_step::<A>(Path::Simd, last, samples@[i + take - 1], self@));
                    one_more_sample::<A>(Path::Simd, pre, samples@, i + take - 1, last, self@);
                }
            }
            i = i + take;
        }
        proof {
            assert(samples@.take(samples@.len() as int) =~= samples@);
            tuning_is_kept::<A>(Path::Simd, pre, samples@, self@);
        }
    }

    /// Like [`process_samples`](ResonatorBank::process_samples) but forces the
    /// scalar code path.
    ///
    /// Intended purely for benchmarking: comparing this to
    /// [`process_samples`](ResonatorBank::process_samples) in the same binary
    /// lets you measure the SIMD speedup without rebuilding with different
    /// target features. Not useful for normal processing.
    #[verifier::spinoff_prover]
    #[verifier::rlimit(40)]
    pub fn process_samples_scalar<A: Arithmetic>(&mut self, samples: &[Binary32])
        requires
            old(self).wf(),
            old(self)@.count + samples@.len() <= u64::MAX,
        ensures
            final(self).wf(),
            processed::<A>(Path::Scalar, old(self)@, samples@, final(self)@),
            final(self)@.count == old(self)@.count + samples@.len(),
            old(self)@.same_tuning(final(self)@),
    {
        let ghost pre = self@;
        let mut i: usize = 0;
        assert(samples@.take(0) =~= Seq::empty());
        while i < samples.len()
            invariant
                self.wf(),
                i <= samples.len(),
                pre == old(self)@,
                pre.count + samples@.len() <= u64::MAX,
                self@.count == pre.count + i,
                processed::<A>(Path::Scalar, pre, samples@.take(i as int), self@),
            decreases samples.len() - i,
        {
            // How many samples can we process before the next stabilization?
            let until_stabilize: u64 = STABILIZE_EVERY - (self.sample_count % STABILIZE_EVERY);
            let rest: usize = samples.len() - i;
            let take: usize = if rest < until_stabilize as usize {
                rest
            } else {
                until_stabilize as usize
            };
            let ghost start = self@.count;
            let ghost mut last = self@;
            let mut j: usize = 0;
            while j < take
                invariant
                    self.wf(),
                    j <= take <= until_stabilize,
                    i + take <= samples.len(),
                    until_stabilize == STABILIZE_EVERY - start % (STABILIZE_EVERY as nat),
                    self@.count == start,
                    j < until_stabilize ==> processed::<A>(
                        Path::Scalar,
                        pre,
                        samples@.take(i + j),
                        BankState { bins: self@.bins, count: start + j as nat },
                    ),
                    j == until_stabilize ==> {
                        &&& processed::<A>(Path::Scalar, pre, samples@.take(i + j - 1), last)
                        &&& last.count == start + j - 1
                        &&& bins_step::<A>(
                            Path::Scalar,
                            last.bins,
                            samples@[i + j - 1],
                            self@.bins,
                        )
                    },
                decreases take - j,
            {
                proof {
                    last = BankState { bins: self@.bins, count: start + j as nat };
                }
                self.process_sample_inner_scalar::<A>(samples[i + j]);
                proof {
                    if j + 1 < until_stabilize {
                        let next = BankState { bins: self@.bins, count: start + j as nat + 1 };
                        assert(!stabilization_due(next.count));
                        assert(settled::<A>(self@.bins, next.count, next.bins));
                        assert(sample_step::<A>(Path::Scalar, last, samples@[i + j], next));
                        one_more_sample::<A>(Path::Scalar, pre, samples@, i + j, last, next);
                    }
                }
                j = j + 1;
            }
            let ghost mid = self@.bins;
            self.sample_count = self.sample_count + take as u64;
            assert(self@.bins =~= mid);
            if self.sample_count % STABILIZE_EVERY == 0 {
                self.stabilize::<A>();
                proof {
                    assert(take == until_stabilize);
                    assert(settled::<A>(mid, self@.count, self@.bins));
                    assert(sample_step::<A>(Path::Scalar, last, samples@[i + take - 1], self@));
                    one_more_sample::<A>(Path::Scalar, pre, samples@, i + take - 1, last, self@);
                }
            }
            i = i + take;
        }
        proof {
            assert(samples@.take(samples@.len() as int) =~= samples@);
            tuning_is_kept::<A>(Path::Scalar, pre, samples@, self@);
        }
    }

    /// Processes `signal` in hops and returns the complex state of every
    /// resonator at the end of each hop.
    ///
    /// The output is laid out row-major with shape `(n_frames, n_bins)`, where
    /// `n_frames = signal.len() / hop` and `n_bins = self.len()`. Any trailing
    /// samples (fewer than `hop`) are dropped.
    ///
    /// The caller keeps `hop` above zero and the size of the output, at eight
    /// bytes a number, within what a vector can hold.
    pub fn resonate<A: Arithmetic>(&mut self, signal: &[Binary32], hop: usize) -> (out: Vec<
        Complex,
    >)
        requires
            old(self).wf(),
            0 < hop,
            old(self)@.count + frame_count(signal@, hop as int) * hop <= u64::MAX,
            frame_count(signal@, hop as int) * old(self)@.bins.len() * 8 <= isize::MAX,
        ensures
            final(self).wf(),
            exists|states: Seq<BankState>| #[trigger]
                hops::<A>(old(self)@, signal@, hop as int, states) && final(self)@ == states.last()
                    && spectrogram(states, old(self)@.bins.len(), out@),
            processed::<A>(
                Path::Simd,
                old(self)@,
                signal@.take(frame_count(signal@, hop as int) * hop),
                final(self)@,
            ),
            old(self)@.same_tuning(final(self)@),
    {
        let ghost pre = self@;
        let ghost h = hop as int;
        let ghost frames = frame_count(signal@, h);
        let n: usize = self.n_resonators;
        let n_frames: usize = signal.len() / hop;
        assert(n_frames == frames);
        let mut out: Vec<Complex> = Vec::with_capacity(n_frames * n);
        let ghost mut states: Seq<BankState> = seq![pre];
        let mut f: usize = 0;
        let mut at: usize = 0;
        while f < n_frames
            invariant
                self.wf(),
                self.n_resonators == n,
                n == pre.bins.len(),
                pre == old(self)@,
                0 < hop,
                h == hop,
                n_frames == frames,
                frames == frame_count(signal@, h),
                f <= n_frames,
                at == f * h,
                self@.count == pre.count + f * h,
                pre.count + frames * hop <= u64::MAX,
                states.len() == f + 1,
                states[0] == pre,
                states.last() == self@,
                forall|g: int| 0 <= g < f ==> #[trigger] hop_step::<A>(signal@, h, states, g),
                out@.len() == f * n,
                forall|g: int, k: int|
                    0 <= g < f && 0 <= k < n ==> out@[#[trigger] cell(n as int, g, k)]
                        == states[g + 1].bins[k].rr,
            decreases n_frames - f,
        {
            proof {
                frame_bounds(signal@, h, f + 1);
                assert((f + 1) * h == f * h + h) by (nonlinear_arith);
                assert(at + hop <= signal.len());
            }
            let chunk: &[Binary32] = vstd::slice::slice_subrange(signal, at, at + hop);
            self.process_samples::<A>(chunk);
            let ghost grown = states.push(self@);
            proof {
                assert forall|g: int| 0 <= g < f + 1 implies #[trigger] hop_step::<A>(
                    signal@,
                    h,
                    grown,
                    g,
                ) by {
                    if g < f {
                        assert(hop_step::<A>(signal@, h, states, g));
                    }
                }
                assert forall|g: int, k: int| 0 <= g < f && 0 <= k < n implies out@[#[trigger] cell(
                    n as int,
                    g,
                    k,
                )] == grown[g + 1].bins[k].rr by {
                    assert(grown[g + 1] == states[g + 1]);
                }
            }
            let mut k: usize = 0;
            while k < n
                invariant
                    self.wf(),
                    self.n_resonators == n,
                    k <= n,
                    out@.len() == f * n + k,
                    grown.len() == f + 2,
                    grown[f + 1] == self@,
                    forall|g: int, j: int|
                        0 <= g < f && 0 <= j < n ==> out@[#[trigger] cell(n as int, g, j)]
                            == grown[g + 1].bins[j].rr,
                    forall|j: int|
                        0 <= j < k ==> out@[#[trigger] cell(n as int, f as int, j)]
                            == self@.bins[j].rr,
                decreases n - k,
            {
                let ghost before = out@;
                out.push(Complex::new(self.rr_re[k], self.rr_im[k]));
                proof {
                    assert forall|g: int, j: int| 0 <= g < f && 0 <= j < n implies out@[
                    #[trigger] cell(n as int, g, j)] == grown[g + 1].bins[j].rr by {
                        cell_bounds(n as int, g, j, f as int);
                    }
                }
                k = k + 1;
            }
            proof {
                states = grown;
                assert forall|g: int, k: int| 0 <= g < f + 1 && 0 <= k < n implies out@[
                #[trigger] cell(n as int, g, k)] == states[g + 1].bins[k].rr by {}
                assert((f + 1) * n == f * n + n) by (nonlinear_arith);
            }
            at = at + hop;
            f = f + 1;
        }
        proof {
            assert(hops::<A>(pre, signal@, h, states));
            assert(spectrogram(states, pre.bins.len(), out@));
            hops_are_one_block::<A>(pre, signal@, h, states, frames as int);
            tuning_is_kept::<A>(Path::Simd, pre, signal@.take(frames * hop), self@);
        }
        out
    }

    /// Creates a new bank with one resonator per config, all sharing the
    /// given sample rate.
    pub fn new<A: Arithmetic>(configs: &[ResonatorConfig], sample_rate: Binary32) -> (bank: Self)
        requires
            sample_rate.is_positive_finite(),
        ensures
            bank.wf(),
            built::<A>(configs@, sample_rate, bank@),
            forall|k: int|
                0 <= k < configs@.len() ==> turns_by_the_angle::<A>(
                    configs@[k].freq,
                    sample_rate,
                    (#[trigger] bank@.bins[k]).w,
                ),
    {
        let n_resonators: usize = configs.len();
        let minus_two: Binary32 = Binary32::from_bits(MINUS_TWO_BITS);
        let pi: Binary32 = Binary32::from_bits(PI_BITS);

        let mut frequencies: Vec<Binary32> = Vec::with_capacity(n_resonators);
        let mut alphas: Vec<Binary32> = Vec::with_capacity(n_resonators);
        let mut betas: Vec<Binary32> = Vec::with_capacity(n_resonators);
        let mut w_re: Vec<Binary32> = Vec::with_capacity(n_resonators);
        let mut w_im: Vec<Binary32> = Vec::with_capacity(n_resonators);

        let mut k: usize = 0;
        while k < n_resonators
            invariant
                n_resonators == configs@.len(),
                k <= n_resonators,
                minus_two == crate::number::minus_two(),
                pi == crate::number::pi(),
                frequencies@.len() == k,
                alphas@.len() == k,
                betas@.len() == k,
                w_re@.len() == k,
                w_im@.len() == k,
                forall|j: int|
                    0 <= j < k ==> {
                        &&& frequencies@[j] == (#[trigger] configs@[j]).freq
                        &&& alphas@[j] == configs@[j].alpha
                        &&& betas@[j] == configs@[j].beta
                        &&& rotation::<A>(
                            configs@[j].freq,
                            sample_rate,
                            Complex { re: w_re@[j], im: w_im@[j] },
                        )
                    },
            decreases n_resonators - k,
        {
            let config: ResonatorConfig = configs[k];
            let minus_two_pi: Binary32 = A::times(minus_two, pi);
            let turn: Binary32 = A::times(minus_two_pi, config.freq);
            let angle: Binary32 = A::over(turn, sample_rate);
            frequencies.push(config.freq);
            alphas.push(config.alpha);
            betas.push(config.beta);
            w_re.push(A::cos(angle));
            w_im.push(A::sin(angle));
            proof {
                let t = AngleWork { minus_two_pi, turn, angle };
                assert(phasor_angle::<A>(config.freq, sample_rate, t));
            }
            k = k + 1;
        }

        let zero: Binary32 = Binary32::from_bits(ZERO_BITS);
        let bank = ResonatorBank {
            n_resonators,
            sample_count: 0,
            frequencies,
            alphas,
            betas,
            w_re,
            w_im,
            z_re: filled(n_resonators, Binary32::from_bits(ONE_BITS)),
            z_im: filled(n_resonators, zero),
            r_re: filled(n_resonators, zero),
            r_im: filled(n_resonators, zero),
            rr_re: filled(n_resonators, zero),
            rr_im: filled(n_resonators, zero),
        };
        assert forall|j: int| 0 <= j < configs@.len() implies tuned::<A>(
            #[trigger] configs@[j],
            sample_rate,
            bank@.bins[j],
        ) by {}
        assert forall|k: int| 0 <= k < configs@.len() implies turns_by_the_angle::<A>(
            configs@[k].freq,
            sample_rate,
            (#[trigger] bank@.bins[k]).w,
        ) by {
            assert(tuned::<A>(configs@[k], sample_rate, bank@.bins[k]));
            rotation_by_hand::<A>(configs@[k].freq, sample_rate, bank@.bins[k].w);
        }
        bank
    }

    /// Creates a new bank from a slice of frequencies, with a weight that the
    /// arithmetic suggests for each of them as the resonator's `alpha` and
    /// `beta`. For custom per-resonator parameters, use
    /// [`new`](ResonatorBank::new) with an explicit slice of
    /// [`ResonatorConfig`].
    pub fn from_frequencies<A: Arithmetic>(freqs: &[Binary32], sample_rate: Binary32) -> (bank: Self)
        requires
            sample_rate.is_positive_finite(),
        ensures
            bank.wf(),
            built_from_frequencies::<A>(freqs@, sample_rate, bank@),
            bank@.bins.len() == freqs@.len(),
            forall|i: int|
                0 <= i < freqs@.len() ==> {
                    &&& (#[trigger] bank@.bins[i]).freq == freqs@[i]
                    &&& suggested_alpha::<A>(freqs@[i], sample_rate, bank@.bins[i].alpha)
                    &&& bank@.bins[i].beta == bank@.bins[i].alpha
                },
    {
        let alphas: Vec<Binary32> = heuristic_alphas::<A>(freqs, sample_rate);
        let configs: Vec<ResonatorConfig> = pair_configs(freqs, alphas.as_slice());
        let bank = ResonatorBank::new::<A>(configs.as_slice(), sample_rate);
        assert forall|i: int| 0 <= i < freqs@.len() implies {
            let bin = #[trigger] bank@.bins[i];
            &&& suggested_alpha::<A>(freqs@[i], sample_rate, bin.alpha)
            &&& tuned::<A>(
                ResonatorConfig { freq: freqs@[i], alpha: bin.alpha, beta: bin.alpha },
                sample_rate,
                bin,
            )
        } by {
            assert(suggested_alpha::<A>(freqs@[i], sample_rate, alphas@[i]));
            assert(tuned::<A>(configs@[i], sample_rate, bank@.bins[i]));
        }
        bank
    }

    /// Clears all accumulated state. Frequencies and time constants are
    /// preserved.
    pub fn reset(&mut self)
        requires
            old(self).wf(),
        ensures
            final(self).wf(),
            final(self)@ == old(self)@.at_rest(),
    {
        let zero: Binary32 = Binary32::from_bits(ZERO_BITS);
        fill(&mut self.z_re, Binary32::from_bits(ONE_BITS));
        fill(&mut self.z_im, zero);
        fill(&mut self.r_re, zero);
        fill(&mut self.r_im, zero);
        fill(&mut self.rr_re, zero);
        fill(&mut self.rr_im, zero);
        self.sample_count = 0;
        assert(self@.bins =~= old(self)@.at_rest().bins);
    }

    /// Returns the number of resonators in the bank.
    pub fn len(&self) -> (n: usize)
        requires
            self.wf(),
        ensures
            n == self@.bins.len(),
    {
        self.n_resonators
    }

    /// Returns the resonant frequency of bin `i`, in Hz.
    pub fn freq(&self, i: usize) -> (freq: Binary32)
        requires
            self.wf(),
            i < self@.bins.len(),
        ensures
            freq == self@.bins[i as int].freq,
    {
        self.frequencies[i]
    }

    /// Returns the current power (squared magnitude) at bin `i`.
    pub fn power<A: Arithmetic>(&self, i: usize) -> (power: Binary32)
        requires
            self.wf(),
            i < self@.bins.len(),
        ensures
            power_of::<A>(self@.bins[i as int].rr, power),
            sum_of_squares::<A>(self@.bins[i as int].rr, power),
    {
        let re: Binary32 = self.rr_re[i];
        let im: Binary32 = self.rr_im[i];
        let re_squared: Binary32 = A::times(re, re);
        let im_squared: Binary32 = A::times(im, im);
        let power: Binary32 = A::plus(re_squared, im_squared);
        assert(power_sum::<A>(self@.bins[i as int].rr, re_squared, im_squared, power));
        assert(sum::<A>(re_squared, im_squared, power));
        power
    }

    /// Returns the current magnitude at bin `i`.
    pub fn magnitude<A: Arithmetic>(&self, i: usize) -> (magnitude: Binary32)
        requires
            self.wf(),
            i < self@.bins.len(),
        ensures
            magnitude_of::<A>(self@.bins[i as int].rr, magnitude),
            exists|power: Binary32| #[trigger]
                sum_of_squares::<A>(self@.bins[i as int].rr, power) && square_root::<A>(
                    power,
                    magnitude,
                ),
    {
        let power: Binary32 = self.power::<A>(i);
        A::sqrt(power)
    }

    /// Returns the current phase at bin `i`, in radians.
    pub fn phase<A: Arithmetic>(&self, i: usize) -> (phase: Binary32)
        requires
            self.wf(),
            i < self@.bins.len(),
        ensures
            phase_of::<A>(self@.bins[i as int].rr, phase),
            direction::<A>(self@.bins[i as int].rr.im, self@.bins[i as int].rr.re, phase),
    {
        A::atan2(self.rr_im[i], self.rr_re[i])
    }

    /// Returns the current complex value at bin `i`.
    pub fn complex(&self, i: usize) -> (c: Complex)
        requires
            self.wf(),
            i < self@.bins.len(),
        ensures
            c == self@.bins[i as int].rr,
    {
        Complex::new(self.rr_re[i], self.rr_im[i])
    }

    /// Returns a copy of every resonator's resonant frequency, in Hz.
    pub fn frequencies(&self) -> (freqs: Vec<Binary32>)
        requires
            self.wf(),
        ensures
            freqs@ == self@.bins.map_values(|b: Bin| b.freq),
    {
        let freqs: Vec<Binary32> = self.frequencies.clone();
        assert(freqs@ =~= self@.bins.map_values(|b: Bin| b.freq));
        freqs
    }

    /// Returns the current magnitude of every bin.
    pub fn magnitudes<A: Arithmetic>(&self) -> (magnitudes: Vec<Binary32>)
        requires
            self.wf(),
        ensures
            magnitudes@.len() == self@.bins.len(),
            forall|i: int|
                0 <= i < self@.bins.len() ==> magnitude_of::<A>(
                    self@.bins[i].rr,
                    #[trigger] magnitudes@[i],
                ),
    {
        let mut magnitudes: Vec<Binary32> = Vec::with_capacity(self.n_resonators);
        let mut i: usize = 0;
        while i < self.n_resonators
            invariant
                self.wf(),
                i <= self.n_resonators,
                magnitudes@.len() == i,
                forall|j: int|
                    0 <= j < i ==> magnitude_of::<A>(self@.bins[j].rr, #[trigger] magnitudes@[j]),
            decreases self.n_resonators - i,
        {
            magnitudes.push(self.magnitude::<A>(i));
            i = i + 1;
        }
        magnitudes
    }

    /// Returns the current phase of every bin, in radians.
    pub fn phases<A: Arithmetic>(&self) -> (phases: Vec<Binary32>)
        requires
            self.wf(),
        ensures
            phases@.len() == self@.bins.len(),
            forall|i: int|
                0 <= i < self@.bins.len() ==> phase_of::<A>(
                    self@.bins[i].rr,
                    #[trigger] phases@[i],
                ),
            forall|i: int|
                0 <= i < self@.bins.len() ==> direction::<A>(
                    self@.bins[i].rr.im,
                    self@.bins[i].rr.re,
                    #[trigger] phases@[i],
                ),
    {
        let mut phases: Vec<Binary32> = Vec::with_capacity(self.n_resonators);
        let mut i: usize = 0;
        while i < self.n_resonators
            invariant
                self.wf(),
                i <= self.n_resonators,
                phases@.len() == i,
                forall|j: int|
                    0 <= j < i ==> phase_of::<A>(self@.bins[j].rr, #[trigger] phases@[j]),
            decreases self.n_resonators - i,
        {
            phases.push(self.phase::<A>(i));
            i = i + 1;
        }
        phases
    }

    /// Returns the current power of every bin.
    pub fn powers<A: Arithmetic>(&self) -> (powers: Vec<Binary32>)
        requires
            self.wf(),
        ensures
            powers@.len() == self@.bins.len(),
            forall|i: int|
                0 <= i < self@.bins.len() ==> power_of::<A>(
                    self@.bins[i].rr,
                    #[trigger] powers@[i],
                ),
    {
        let mut powers: Vec<Binary32> = Vec::with_capacity(self.n_resonators);
        let mut i: usize = 0;
        while i < self.n_resonators
            invariant
                self.wf(),
                i <= self.n_resonators,
                powers@.len() == i,
                forall|j: int|
                    0 <= j < i ==> power_of::<A>(self@.bins[j].rr, #[trigger] powers@[j]),
            decreases self.n_resonators - i,
        {
            powers.push(self.power::<A>(i));
            i = i + 1;
        }
        powers
    }
}

} // verus!

//! What the calls of a bank compute, in real numbers.
//!
//! Wherever no operation has to round, a bank does what the formulas of an
//! exponentially weighted average, of a rotation and of a length say.

use crate::arithmetic::{cosine, sine, square_root, Arithmetic};
use crate::bank::ResonatorBank;
use crate::config::ResonatorConfig;
use crate::exact::Numbers;
use crate::laws::{block_is_a_chain, chain, chain_link};
use crate::model::{
    bin_stabilized, bin_step, bin_update, bin_update_x4, bins_step, group, group_step, grouped,
    phasor_angle, phasor_stabilized, power_of, power_sum, processed, rotation, sample_step, settled,
    tuned,
    AngleWork, BankState, Bin, BinWork, BinWorkX4, Path, StabilizeWork,
};
use crate::number::{one, pi, Binary32, Complex, Lanes};
use vstd::prelude::*;

verus! {

/// Moving by a share of the way is the weighted average with that share.
proof fn average_is_a_step(a: real, x: real, t: real)
    ensures
        (1real - a) * x + a * t - x == a * (t - x),
{
    assert((1real - a) * x + a * t - x == a * (t - x)) by (nonlinear_arith);
}

/// A product of complex numbers, turned back, is the first factor again.
proof fn product_turns_back(zr: real, zi: real, wr: real, wi: real)
    ensures
        (zr * wr - zi * wi) * wr + (zr * wi + zi * wr) * wi == zr * (wr * wr + wi * wi),
        (zr * wi + zi * wr) * wr - (zr * wr - zi * wi) * wi == zi * (wr * wr + wi * wi),
{
    assert((zr * wr - zi * wi) * wr + (zr * wi + zi * wr) * wi == zr * (wr * wr + wi * wi))
        by (nonlinear_arith);
    assert((zr * wi + zi * wr) * wr - (zr * wr - zi * wi) * wi == zi * (wr * wr + wi * wi))
        by (nonlinear_arith);
}

/// A step of a resonator on its own, in real numbers.
proof fn bin_step_resonates<A: Arithmetic>(n: Numbers, pre: Bin, sample: Binary32, post: Bin)
    requires
        n.computes::<A>(),
        n.step_fits(pre, sample),
        bin_step::<A>(pre, sample, post),
    ensures
        n.resonates(pre, sample, post),
        n.turned(pre.z, pre.w, post.z),
        n.has_complex(post.z),
{
    let t = choose|t: BinWork| #[trigger] bin_update::<A>(pre, sample, t, post);
    let (a, b) = (n.v(pre.alpha), n.v(pre.beta));
    let s = n.v(sample);
    let (zr, zi) = (n.v(pre.z.re), n.v(pre.z.im));
    let (wr, wi) = (n.v(pre.w.re), n.v(pre.w.im));
    assert(n.v(t.one_m_alpha) == 1real - a);
    assert(n.v(t.one_m_beta) == 1real - b);
    assert(n.v(t.alpha_sample) == a * s);
    assert(n.v(t.alpha_sample_z_re) == a * s * zr);
    assert(n.v(t.alpha_sample_z_im) == a * s * zi);
    assert(n.v(post.r.re) == (1real - a) * n.v(pre.r.re) + a * s * zr);
    assert(n.v(post.r.im) == (1real - a) * n.v(pre.r.im) + a * s * zi);
    assert(n.v(t.beta_r_re) == b * n.v(post.r.re));
    assert(n.v(t.beta_r_im) == b * n.v(post.r.im));
    assert(n.v(post.rr.re) == (1real - b) * n.v(pre.rr.re) + b * n.v(post.r.re));
    assert(n.v(post.rr.im) == (1real - b) * n.v(pre.rr.im) + b * n.v(post.r.im));
    assert(n.v(post.z.re) == zr * wr - zi * wi);
    assert(n.v(post.z.im) == zr * wi + zi * wr);
    assert(a * s * zr == a * (s * zr)) by (nonlinear_arith);
    assert(a * s * zi == a * (s * zi)) by (nonlinear_arith);
    average_is_a_step(a, n.v(pre.r.re), s * zr);
    average_is_a_step(a, n.v(pre.r.im), s * zi);
    average_is_a_step(b, n.v(pre.rr.re), n.v(post.r.re));
    average_is_a_step(b, n.v(pre.rr.im), n.v(post.r.im));
    product_turns_back(zr, zi, wr, wi);
}

/// A step of a resonator in a group, in real numbers.
proof fn group_step_resonates<A: Arithmetic>(
    n: Numbers,
    pre: Seq<Bin>,
    sample: Binary32,
    post: Seq<Bin>,
    k: int,
)
    requires
        n.computes::<A>(),
        n.step_fits(pre[k], sample),
        group_step::<A>(pre, k / 4, sample, post),
        pre[k].same_tuning(post[k]),
    ensures
        n.resonates(pre[k], sample, post[k]),
        n.turned(pre[k].z, pre[k].w, post[k].z),
        n.has_complex(post[k].z),
{
    let g = k / 4;
    let i = k - 4 * g;
    let p = group(pre, g);
    let q = group(post, g);
    let t = choose|t: BinWorkX4| #[trigger] bin_update_x4::<A>(p, sample, t, q);
    let (x, y) = (pre[k], post[k]);
    let (a, b) = (n.v(x.alpha), n.v(x.beta));
    let s = n.v(sample);
    let (zr, zi) = (n.v(x.z.re), n.v(x.z.im));
    let (wr, wi) = (n.v(x.w.re), n.v(x.w.im));
    assert(Lanes::all(one()).lane(i) == one());
    assert(Lanes::all(sample).lane(i) == sample);
    assert(p.alpha.lane(i) == x.alpha && p.beta.lane(i) == x.beta);
    assert(p.w_re.lane(i) == x.w.re && p.w_im.lane(i) == x.w.im);
    assert(p.z_re.lane(i) == x.z.re && p.z_im.lane(i) == x.z.im);
    assert(p.r_re.lane(i) == x.r.re && p.r_im.lane(i) == x.r.im);
    assert(p.rr_re.lane(i) == x.rr.re && p.rr_im.lane(i) == x.rr.im);
    assert(q.z_re.lane(i) == y.z.re && q.z_im.lane(i) == y.z.im);
    assert(q.r_re.lane(i) == y.r.re && q.r_im.lane(i) == y.r.im);
    assert(q.rr_re.lane(i) == y.rr.re && q.rr_im.lane(i) == y.rr.im);
    assert(n.v(t.one_m_alpha.lane(i)) == 1real - a);
    assert(n.v(t.one_m_beta.lane(i)) == 1real - b);
    assert(n.v(t.alpha_sample.lane(i)) == a * s);
    assert(n.v(t.alpha_sample_z_re.lane(i)) == a * s * zr);
    assert(n.v(t.alpha_sample_z_im.lane(i)) == a * s * zi);
    assert(n.v(y.r.re) == (1real - a) * n.v(x.r.re) + a * s * zr);
    assert(n.v(y.r.im) == (1real - a) * n.v(x.r.im) + a * s * zi);
    assert(n.v(t.beta_r_re.lane(i)) == b * n.v(y.r.re));
    assert(n.v(t.beta_r_im.lane(i)) == b * n.v(y.r.im));
    assert(n.v(y.rr.re) == (1real - b) * n.v(x.rr.re) + b * n.v(y.r.re));
    assert(n.v(y.rr.im) == (1real - b) * n.v(x.rr.im) + b * n.v(y.r.im));
    assert(n.v(t.z_re_w_re.lane(i)) == zr * wr);
    assert(n.v(t.z_im_w_im.lane(i)) == zi * wi);
    assert(n.v(t.z_re_w_im.lane(i)) == zr * wi);
    assert(n.v(t.z_im_w_re.lane(i)) == zi * wr);
    assert(n.v(y.z.re) == zr * wr - zi * wi);
    assert(n.v(y.z.im) == zr * wi + zi * wr);
    assert(a * s * zr == a * (s * zr)) by (nonlinear_arith);
    assert(a * s * zi == a * (s * zi)) by (nonlinear_arith);
    average_is_a_step(a, n.v(x.r.re), s * zr);
    average_is_a_step(a, n.v(x.r.im), s * zi);
    average_is_a_step(b, n.v(x.rr.re), n.v(y.r.re));
    average_is_a_step(b, n.v(x.rr.im), n.v(y.r.im));
    product_turns_back(zr, zi, wr, wi);
}

/// Stabilization, in real numbers.
proof fn stabilization_normalizes<A: Arithmetic>(
    n: Numbers,
    length: real,
    i: real,
    pre: Bin,
    post: Bin,
)
    requires
        n.computes::<A>(),
        bin_stabilized::<A>(pre, post),
        n.stabilization_fits(pre.z, length, i),
    ensures
        n.normalized(pre.z, post.z),
{
    let t = choose|t: StabilizeWork| #[trigger] phasor_stabilized::<A>(pre.z, t, post.z);
    let (x, y) = (n.v(pre.z.re), n.v(pre.z.im));
    assert(n.v(t.re_squared) == x * x);
    assert(n.v(t.im_squared) == y * y);
    assert(n.v(t.power) == x * x + y * y);
    assert(n.v(t.magnitude) == length);
    assert(n.v(t.inv_mag) == i);
    assert(n.v(post.z.re) == x * i);
    assert(n.v(post.z.im) == y * i);
    assert((x * i) * (x * i) + (y * i) * (y * i) == 1real) by (nonlinear_arith)
        requires
            i * length == 1real,
            length * length == x * x + y * y,
    ;
    assert((x * i) * y == (y * i) * x) by (nonlinear_arith);
    assert((x * i) * x + (y * i) * y > 0real) by (nonlinear_arith)
        requires
            0real < i,
            0real < length,
            length * length == x * x + y * y,
    ;
}

// ---------------------------------------------------------------------------
// Samples
// ---------------------------------------------------------------------------

/// One sample takes resonator `k` of `pre` to resonator `k` of `post`, in real
/// numbers: the outputs move towards what they average, and the phasor turns by
/// the rotation. The sample that makes the count a multiple of 512 also brings
/// the phasor back to unit length, in the direction it then has.
pub open spec fn sample_means(
    n: Numbers,
    pre: BankState,
    sample: Binary32,
    post: BankState,
    k: int,
) -> bool {
    let (a, b) = (pre.bins[k], post.bins[k]);
    &&& n.resonates(a, sample, b)
    &&& (pre.count + 1) % 512 != 0 ==> n.turned(a.z, a.w, b.z)
    &&& (pre.count + 1) % 512 == 0 ==> exists|z: Complex| #[trigger]
        n.turned(a.z, a.w, z) && forall|length: real, inverse: real| #[trigger]
            n.stabilization_fits(z, length, inverse) ==> n.normalized(z, b.z)
}

/// A step of a bank, in real numbers.
pub proof fn sample_step_means<A: Arithmetic>(
    n: Numbers,
    path: Path,
    pre: BankState,
    sample: Binary32,
    post: BankState,
    k: int,
)
    requires
        n.computes::<A>(),
        sample_step::<A>(path, pre, sample, post),
        0 <= k < pre.bins.len(),
        n.step_fits(pre.bins[k], sample),
    ensures
        post.bins.len() == pre.bins.len(),
        post.count == pre.count + 1,
        sample_means(n, pre, sample, post, k),
{
    let mid = choose|mid: Seq<Bin>| #[trigger]
        bins_step::<A>(path, pre.bins, sample, mid) && settled::<A>(mid, post.count, post.bins);
    assert(pre.bins[k].same_tuning(mid[k]));
    if k < grouped(path, pre.bins.len()) {
        assert(group_step::<A>(pre.bins, k / 4, sample, mid));
        group_step_resonates::<A>(n, pre.bins, sample, mid, k);
    } else {
        assert(bin_step::<A>(pre.bins[k], sample, mid[k]));
        bin_step_resonates::<A>(n, pre.bins[k], sample, mid[k]);
    }
    if post.count % 512 == 0 {
        assert(bin_stabilized::<A>(mid[k], post.bins[k]));
        let z = mid[k].z;
        assert(n.turned(pre.bins[k].z, pre.bins[k].w, z));
        assert forall|length: real, inverse: real| #[trigger]
            n.stabilization_fits(z, length, inverse) implies n.normalized(z, post.bins[k].z) by {
            stabilization_normalizes::<A>(n, length, inverse, mid[k], post.bins[k]);
        }
    }
}

/// A sample makes every resonator an exponentially weighted average, of weight
/// `alpha`, of the samples times the phasor, smooths it with weight `beta`,
/// turns the phasor and keeps it at unit length.
pub proof fn process_sample_means<A: Arithmetic>(n: Numbers, sample: Binary32)
    requires
        n.computes::<A>(),
    ensures
        forall|bank: &mut ResonatorBank|
            #![trigger call_ensures(ResonatorBank::process_sample::<A>, (bank, sample), ())]
            call_ensures(ResonatorBank::process_sample::<A>, (bank, sample), ()) ==> {
                &&& (*final(bank))@.bins.len() == (*bank)@.bins.len()
                &&& (*final(bank))@.count == (*bank)@.count + 1
                &&& forall|k: int|
                    0 <= k < (*bank)@.bins.len() && n.step_fits(
                        #[trigger] (*bank)@.bins[k],
                        sample,
                    ) ==> sample_means(n, (*bank)@, sample, (*final(bank))@, k)
            },
{
    assert forall|bank: &mut ResonatorBank|
        #![trigger call_ensures(ResonatorBank::process_sample::<A>, (bank, sample), ())]
        call_ensures(ResonatorBank::process_sample::<A>, (bank, sample), ()) implies {
        &&& (*final(bank))@.bins.len() == (*bank)@.bins.len()
        &&& (*final(bank))@.count == (*bank)@.count + 1
        &&& forall|k: int|
            0 <= k < (*bank)@.bins.len() && n.step_fits(#[trigger] (*bank)@.bins[k], sample)
                ==> sample_means(n, (*bank)@, sample, (*final(bank))@, k)
    } by {
        let (pre, post) = ((*bank)@, (*final(bank))@);
        assert forall|k: int|
            0 <= k < pre.bins.len() && n.step_fits(#[trigger] pre.bins[k], sample) implies sample_means(
            n,
            pre,
            sample,
            post,
            k,
        ) by {
            sample_step_means::<A>(n, Path::Simd, pre, sample, post, k);
        }
    }
}

/// Sample `i` takes resonator `k` of `states[i]` to that of `states[i + 1]` in
/// real numbers, if none of its operations has to round.
pub open spec fn link_means(
    n: Numbers,
    pre: BankState,
    samples: Seq<Binary32>,
    states: Seq<BankState>,
    i: int,
    k: int,
) -> bool {
    &&& states[i].count == pre.count + i
    &&& states[i].bins.len() == pre.bins.len()
    &&& n.step_fits(states[i].bins[k], samples[i]) ==> sample_means(
        n,
        states[i],
        samples[i],
        states[i + 1],
        k,
    )
}

/// `states` holds a bank and then that bank after each of the samples, each of
/// which does in real numbers what one sample does.
pub open spec fn samples_mean(
    n: Numbers,
    pre: BankState,
    samples: Seq<Binary32>,
    post: BankState,
    states: Seq<BankState>,
) -> bool {
    &&& states.len() == samples.len() + 1
    &&& states[0] == pre
    &&& states.last() == post
    &&& forall|i: int, k: int|
        0 <= i < samples.len() && 0 <= k < pre.bins.len() ==> #[trigger] link_means(
            n,
            pre,
            samples,
            states,
            i,
            k,
        )
}

/// The resonators and the count along a chain of samples.
proof fn chain_keeps_length<A: Arithmetic>(
    path: Path,
    states: Seq<BankState>,
    samples: Seq<Binary32>,
    i: int,
)
    requires
        chain::<A>(path, states, samples),
        0 <= i < states.len(),
    ensures
        states[i].bins.len() == states[0].bins.len(),
        states[i].count == states[0].count + i,
    decreases i,
{
    if i > 0 {
        chain_keeps_length::<A>(path, states, samples, i - 1);
        assert(chain_link::<A>(path, states, samples, i - 1));
        let (a, b) = (states[i - 1], states[i]);
        let sample = samples[i - 1];
        let mid = choose|mid: Seq<Bin>| #[trigger]
            bins_step::<A>(path, a.bins, sample, mid) && settled::<A>(mid, b.count, b.bins);
        assert(mid.len() == b.bins.len());
    }
}

/// A block, in real numbers.
proof fn block_means<A: Arithmetic>(
    n: Numbers,
    path: Path,
    pre: BankState,
    samples: Seq<Binary32>,
    post: BankState,
)
    requires
        n.computes::<A>(),
        processed::<A>(path, pre, samples, post),
    ensures
        exists|states: Seq<BankState>| #[trigger] samples_mean(n, pre, samples, post, states),
{
    block_is_a_chain::<A>(path, pre, samples, post);
    let states = choose|states: Seq<BankState>| #[trigger]
        chain::<A>(path, states, samples) && states[0] == pre && states.last() == post;
    assert forall|i: int, k: int|
        0 <= i < samples.len() && 0 <= k < pre.bins.len() implies #[trigger] link_means(
        n,
        pre,
        samples,
        states,
        i,
        k,
    ) by {
        chain_keeps_length::<A>(path, states, samples, i);
        assert(chain_link::<A>(path, states, samples, i));
        if n.step_fits(states[i].bins[k], samples[i]) {
            sample_step_means::<A>(n, path, states[i], samples[i], states[i + 1], k);
        }
    }
    assert(samples_mean(n, pre, samples, post, states));
}

/// A block of samples does to every resonator what its samples do, one after
/// the other.
pub proof fn process_samples_means<A: Arithmetic>(n: Numbers, samples: &[Binary32])
    requires
        n.computes::<A>(),
    ensures
        forall|bank: &mut ResonatorBank|
            #![trigger call_ensures(ResonatorBank::process_samples::<A>, (bank, samples), ())]
            call_ensures(ResonatorBank::process_samples::<A>, (bank, samples), ()) ==> exists|
                states: Seq<BankState>,
            | #[trigger]
                samples_mean(n, (*bank)@, samples@, (*final(bank))@, states),
        forall|bank: &mut ResonatorBank|
            #![trigger call_ensures(ResonatorBank::process_samples_scalar::<A>, (bank, samples), ())]
            call_ensures(ResonatorBank::process_samples_scalar::<A>, (bank, samples), ()) ==> exists|
                states: Seq<BankState>,
            | #[trigger]
                samples_mean(n, (*bank)@, samples@, (*final(bank))@, states),
{
    assert forall|bank: &mut ResonatorBank|
        #![trigger call_ensures(ResonatorBank::process_samples::<A>, (bank, samples), ())]
        call_ensures(ResonatorBank::process_samples::<A>, (bank, samples), ()) implies exists|
        states: Seq<BankState>,
    | #[trigger] samples_mean(n, (*bank)@, samples@, (*final(bank))@, states) by {
        block_means::<A>(n, Path::Simd, (*bank)@, samples@, (*final(bank))@);
    }
    assert forall|bank: &mut ResonatorBank|
        #![trigger call_ensures(ResonatorBank::process_samples_scalar::<A>, (bank, samples), ())]
        call_ensures(ResonatorBank::process_samples_scalar::<A>, (bank, samples), ()) implies exists|
        states: Seq<BankState>,
    | #[trigger] samples_mean(n, (*bank)@, samples@, (*final(bank))@, states) by {
        block_means::<A>(n, Path::Scalar, (*bank)@, samples@, (*final(bank))@);
    }
}

// ---------------------------------------------------------------------------
// Construction
// ---------------------------------------------------------------------------

/// No operation that finds the angle of `freq` at `rate` has to round, and that
/// angle is `angle`: at `rate` samples it comes to `freq` turns clockwise.
pub open spec fn turns_by(n: Numbers, freq: Binary32, rate: Binary32, angle: real) -> bool {
    let turn = (0real - 2real) * n.v(pi());
    &&& angle * n.v(rate) == turn * n.v(freq)
    &&& n.v(rate) != 0real
    &&& n.has(freq) && n.has(rate)
    &&& (n.fits)(turn) && (n.fits)(turn * n.v(freq)) && (n.fits)(angle)
}

/// The rotation of a frequency, in real numbers.
proof fn rotation_means<A: Arithmetic>(
    n: Numbers,
    freq: Binary32,
    rate: Binary32,
    angle: real,
    w: Complex,
)
    requires
        n.computes::<A>(),
        rotation::<A>(freq, rate, w),
        turns_by(n, freq, rate, angle),
    ensures
        n.v(w.re) == (n.cos)(angle),
        n.v(w.im) == (n.sin)(angle),
{
    let t = choose|t: AngleWork| #[trigger]
        phasor_angle::<A>(freq, rate, t) && cosine::<A>(t.angle, w.re) && sine::<A>(
            t.angle,
            w.im,
        );
    let turn = (0real - 2real) * n.v(pi());
    assert(n.v(t.minus_two_pi) == turn);
    assert(n.v(t.turn) == turn * n.v(freq));
    assert(n.v(t.angle) == angle);
}

/// The phasor of a resonator turns by one and the same angle in both parts: the
/// one that makes `freq` turns clockwise in as many samples as the sample rate
/// says.
pub proof fn new_means<A: Arithmetic>(
    n: Numbers,
    configs: &[ResonatorConfig],
    rate: Binary32,
    bank: ResonatorBank,
    k: int,
    angle: real,
)
    requires
        n.computes::<A>(),
        call_ensures(ResonatorBank::new::<A>, (configs, rate), bank),
        0 <= k < configs@.len(),
        turns_by(n, configs@[k].freq, rate, angle),
    ensures
        n.v(bank@.bins[k].w.re) == (n.cos)(angle),
        n.v(bank@.bins[k].w.im) == (n.sin)(angle),
{
    assert(tuned::<A>(configs@[k], rate, bank@.bins[k]));
    rotation_means::<A>(n, configs@[k].freq, rate, angle, bank@.bins[k].w);
}

/// The angle is proportional to the frequency: at the same rate a frequency
/// that is `m` times another turns by `m` times its angle.
pub proof fn multiples_turn_by_multiples<A: Arithmetic>(
    n: Numbers,
    configs: &[ResonatorConfig],
    rate: Binary32,
    bank: ResonatorBank,
    i: int,
    j: int,
    angle: real,
    m: real,
)
    requires
        n.computes::<A>(),
        call_ensures(ResonatorBank::new::<A>, (configs, rate), bank),
        0 <= i < configs@.len(),
        0 <= j < configs@.len(),
        n.v(configs@[j].freq) == m * n.v(configs@[i].freq),
        turns_by(n, configs@[i].freq, rate, angle),
        n.has(configs@[j].freq),
        (n.fits)((0real - 2real) * n.v(pi()) * n.v(configs@[j].freq)),
        (n.fits)(m * angle),
    ensures
        n.v(bank@.bins[i].w.re) == (n.cos)(angle),
        n.v(bank@.bins[i].w.im) == (n.sin)(angle),
        n.v(bank@.bins[j].w.re) == (n.cos)(m * angle),
        n.v(bank@.bins[j].w.im) == (n.sin)(m * angle),
{
    let turn = (0real - 2real) * n.v(pi());
    let (f, g, r) = (n.v(configs@[i].freq), n.v(configs@[j].freq), n.v(rate));
    assert((m * angle) * r == m * (angle * r)) by (nonlinear_arith);
    assert(turn * (m * f) == m * (turn * f)) by (nonlinear_arith);
    new_means::<A>(n, configs, rate, bank, i, angle);
    new_means::<A>(n, configs, rate, bank, j, m * angle);
}

/// A bank built from frequencies alone turns by the same angles, and both
/// weights of a resonator are the weight for its frequency.
pub proof fn from_frequencies_means<A: Arithmetic>(
    n: Numbers,
    freqs: &[Binary32],
    rate: Binary32,
    bank: ResonatorBank,
    k: int,
    angle: real,
)
    requires
        n.computes::<A>(),
        call_ensures(ResonatorBank::from_frequencies::<A>, (freqs, rate), bank),
        0 <= k < freqs@.len(),
        n.has(freqs@[k]),
        n.has(rate),
    ensures
        n.v(bank@.bins[k].alpha) == (n.weight)(n.v(freqs@[k]), n.v(rate)),
        n.v(bank@.bins[k].beta) == (n.weight)(n.v(freqs@[k]), n.v(rate)),
        turns_by(n, freqs@[k], rate, angle) ==> n.v(bank@.bins[k].w.re) == (n.cos)(angle) && n.v(
            bank@.bins[k].w.im,
        ) == (n.sin)(angle),
{
    let bin = bank@.bins[k];
    assert(rotation::<A>(freqs@[k], rate, bin.w));
    if turns_by(n, freqs@[k], rate, angle) {
        rotation_means::<A>(n, freqs@[k], rate, angle, bin.w);
    }
}

// ---------------------------------------------------------------------------
// Readings
// ---------------------------------------------------------------------------

/// The power of a reading, in real numbers.
proof fn power_of_means<A: Arithmetic>(n: Numbers, c: Complex, p: Binary32)
    requires
        n.computes::<A>(),
        power_of::<A>(c, p),
        n.power_fits(c),
    ensures
        n.v(p) == n.norm(c),
{
    let (x, y) = choose|x: Binary32, y: Binary32| #[trigger] power_sum::<A>(c, x, y, p);
    assert(n.v(x) == n.v(c.re) * n.v(c.re));
    assert(n.v(y) == n.v(c.im) * n.v(c.im));
}

/// The power of a resonator is the squared distance of its reading from zero,
/// and its magnitude is the distance.
pub proof fn power_and_magnitude_mean<A: Arithmetic>(
    n: Numbers,
    bank: &ResonatorBank,
    i: usize,
    c: Complex,
    p: Binary32,
    m: Binary32,
    distance: real,
)
    requires
        n.computes::<A>(),
        i < bank@.bins.len(),
        call_ensures(ResonatorBank::complex, (bank, i), c),
        call_ensures(ResonatorBank::power::<A>, (bank, i), p),
        call_ensures(ResonatorBank::magnitude::<A>, (bank, i), m),
        n.power_fits(c),
    ensures
        n.v(p) == n.v(c.re) * n.v(c.re) + n.v(c.im) * n.v(c.im),
        0real <= distance && distance * distance == n.v(c.re) * n.v(c.re) + n.v(c.im) * n.v(c.im)
            && (n.fits)(distance) ==> n.v(m) == distance,
{
    power_of_means::<A>(n, c, p);
    let q = choose|q: Binary32| #[trigger] power_of::<A>(c, q) && square_root::<A>(q, m);
    power_of_means::<A>(n, c, q);
}

/// The phase of a resonator is the angle at which its reading stands: of the
/// point whose ordinate is the imaginary part and whose abscissa is the real
/// part.
pub proof fn phase_means<A: Arithmetic>(
    n: Numbers,
    bank: &ResonatorBank,
    i: usize,
    c: Complex,
    p: Binary32,
)
    requires
        n.computes::<A>(),
        i < bank@.bins.len(),
        call_ensures(ResonatorBank::complex, (bank, i), c),
        call_ensures(ResonatorBank::phase::<A>, (bank, i), p),
        n.has_complex(c),
        n.v(c.im) != 0real,
    ensures
        n.v(p) == (n.angle)(n.v(c.im), n.v(c.re)),
{
}

} // verus!

//! What scaling does: the phasors do not depend on the samples, the readings
//! scale with them, and a common factor of all rates does not show.

use crate::arithmetic::{
    cosine, quotients_cancel, repeatable, scales_by, sine, squares_scale_by, Arithmetic,
};
use crate::config::ResonatorConfig;
use crate::laws::tuning_is_kept;
use crate::model::{
    bin_stabilized, bin_step, bin_update, bin_update_x4, bins_step, built, group, group_step,
    grouped, origin, phasor_angle, phasor_stabilized, power_of, power_sum, processed, rotation,
    sample_step, settled, stabilization_due, tuned, AngleWork, BankState, Bin, BinWork, BinWorkX4, Path, StabilizeWork,
};
use crate::number::{zero, Binary32, Complex, Lanes};
use vstd::prelude::*;

verus! {

/// With repeatable arithmetic, resonators in the same phase stay in the same
/// phase, whatever samples they hear before stabilization.
proof fn step_ignores_the_sample<A: Arithmetic>(
    path: Path,
    pre_a: Seq<Bin>,
    x: Binary32,
    a: Seq<Bin>,
    pre_b: Seq<Bin>,
    y: Binary32,
    b: Seq<Bin>,
    k: int,
)
    requires
        repeatable::<A>(),
        bins_step::<A>(path, pre_a, x, a),
        bins_step::<A>(path, pre_b, y, b),
        pre_a.len() == pre_b.len(),
        forall|j: int|
            0 <= j < pre_a.len() ==> {
                &&& #[trigger] pre_a[j].same_tuning(pre_b[j])
                &&& pre_a[j].z == pre_b[j].z
            },
        0 <= k < pre_a.len(),
    ensures
        a[k].z == b[k].z,
{
    assert(pre_a[k].same_tuning(pre_b[k]));
    if k < grouped(path, pre_a.len()) {
        let g = k / 4;
        assert(group_step::<A>(pre_a, g, x, a));
        assert(group_step::<A>(pre_b, g, y, b));
        let s = choose|t: BinWorkX4| #[trigger]
            bin_update_x4::<A>(group(pre_a, g), x, t, group(a, g));
        let t = choose|t: BinWorkX4| #[trigger]
            bin_update_x4::<A>(group(pre_b, g), y, t, group(b, g));
        assert(pre_a[4 * g].same_tuning(pre_b[4 * g]));
        assert(pre_a[4 * g + 1].same_tuning(pre_b[4 * g + 1]));
        assert(pre_a[4 * g + 2].same_tuning(pre_b[4 * g + 2]));
        assert(pre_a[4 * g + 3].same_tuning(pre_b[4 * g + 3]));
        assert(group(pre_a, g).z_re == group(pre_b, g).z_re);
        assert(group(pre_a, g).z_im == group(pre_b, g).z_im);
        assert(group(pre_a, g).w_re == group(pre_b, g).w_re);
        assert(group(pre_a, g).w_im == group(pre_b, g).w_im);
        assert(group(a, g).z_re == group(b, g).z_re);
        assert(group(a, g).z_im == group(b, g).z_im);
        let i = k - 4 * g;
        assert(group(a, g).z_re.lane(i) == a[k].z.re);
        assert(group(b, g).z_re.lane(i) == b[k].z.re);
        assert(group(a, g).z_im.lane(i) == a[k].z.im);
        assert(group(b, g).z_im.lane(i) == b[k].z.im);
    } else {
        assert(bin_step::<A>(pre_a[k], x, a[k]));
        assert(bin_step::<A>(pre_b[k], y, b[k]));
        let s = choose|t: BinWork| #[trigger] bin_update::<A>(pre_a[k], x, t, a[k]);
        let t = choose|t: BinWork| #[trigger] bin_update::<A>(pre_b[k], y, t, b[k]);
        assert(s.z_re_w_re == t.z_re_w_re);
    }
}

/// The phasors do not depend on the samples: with repeatable arithmetic, banks
/// that start in the same phase and after equally many samples are in the same
/// phase after equally many more, whatever those are.
pub proof fn phasors_ignore_the_samples<A: Arithmetic>(
    path: Path,
    pre_a: BankState,
    xs: Seq<Binary32>,
    a: BankState,
    pre_b: BankState,
    ys: Seq<Binary32>,
    b: BankState,
)
    requires
        repeatable::<A>(),
        processed::<A>(path, pre_a, xs, a),
        processed::<A>(path, pre_b, ys, b),
        xs.len() == ys.len(),
        pre_a.count == pre_b.count,
        pre_a.same_phasors(pre_b),
    ensures
        a.count == b.count,
        a.same_phasors(b),
    decreases xs.len(),
{
    tuning_is_kept::<A>(path, pre_a, xs, a);
    tuning_is_kept::<A>(path, pre_b, ys, b);
    assert forall|k: int| 0 <= k < a.bins.len() implies #[trigger] a.bins[k].same_tuning(
        b.bins[k],
    ) by {
        assert(pre_a.bins[k].same_tuning(a.bins[k]));
        assert(pre_b.bins[k].same_tuning(b.bins[k]));
        assert(pre_a.bins[k].same_tuning(pre_b.bins[k]));
    }
    if xs.len() > 0 {
        let p = choose|mid: BankState|
            processed::<A>(path, pre_a, xs.drop_last(), mid) && #[trigger] sample_step::<A>(
                path,
                mid,
                xs.last(),
                a,
            );
        let q = choose|mid: BankState|
            processed::<A>(path, pre_b, ys.drop_last(), mid) && #[trigger] sample_step::<A>(
                path,
                mid,
                ys.last(),
                b,
            );
        phasors_ignore_the_samples::<A>(
            path,
            pre_a,
            xs.drop_last(),
            p,
            pre_b,
            ys.drop_last(),
            q,
        );
        let s = choose|mid: Seq<Bin>| #[trigger]
            bins_step::<A>(path, p.bins, xs.last(), mid) && settled::<A>(mid, a.count, a.bins);
        let t = choose|mid: Seq<Bin>| #[trigger]
            bins_step::<A>(path, q.bins, ys.last(), mid) && settled::<A>(mid, b.count, b.bins);
        assert forall|k: int| 0 <= k < a.bins.len() implies (#[trigger] a.bins[k]).z
            == b.bins[k].z by {
            step_ignores_the_sample::<A>(path, p.bins, xs.last(), s, q.bins, ys.last(), t, k);
            if stabilization_due(a.count) {
                stabilized_alike::<A>(s[k], a.bins[k], t[k], b.bins[k]);
            }
        }
    }
}

/// With repeatable arithmetic, stabilization takes equal phasors to equal ones.
proof fn stabilized_alike<A: Arithmetic>(pre_a: Bin, a: Bin, pre_b: Bin, b: Bin)
    requires
        repeatable::<A>(),
        bin_stabilized::<A>(pre_a, a),
        bin_stabilized::<A>(pre_b, b),
        pre_a.z == pre_b.z,
    ensures
        a.z == b.z,
{
    let s = choose|w: StabilizeWork| #[trigger] phasor_stabilized::<A>(pre_a.z, w, a.z);
    let t = choose|w: StabilizeWork| #[trigger] phasor_stabilized::<A>(pre_b.z, w, b.z);
    assert(s == t);
}

/// Scaling the outputs of a resonator and the sample scales what the sample
/// makes of the outputs.
proof fn step_scales<A: Arithmetic>(
    path: Path,
    c: spec_fn(Binary32) -> Binary32,
    pre: Seq<Bin>,
    sample: Binary32,
    a: Seq<Bin>,
    pre_b: Seq<Bin>,
    b: Seq<Bin>,
    k: int,
)
    requires
        repeatable::<A>(),
        scales_by::<A>(c),
        bins_step::<A>(path, pre, sample, a),
        bins_step::<A>(path, pre_b, c(sample), b),
        pre_b == pre.map_values(|x: Bin| x.scaled(c)),
        0 <= k < pre.len(),
    ensures
        b[k] == a[k].scaled(c),
{
    assert forall|j: int| 0 <= j < pre.len() implies {
        &&& #[trigger] pre[j].same_tuning(pre_b[j])
        &&& pre[j].z == pre_b[j].z
    } by {}
    step_ignores_the_sample::<A>(path, pre, sample, a, pre_b, c(sample), b, k);
    assert(pre[k].same_tuning(a[k]));
    assert(pre_b[k].same_tuning(b[k]));
    if k < grouped(path, pre.len()) {
        let g = k / 4;
        assert(group_step::<A>(pre, g, sample, a));
        assert(group_step::<A>(pre_b, g, c(sample), b));
        let p = group(pre, g);
        let q = group(pre_b, g);
        let pa = group(a, g);
        let qb = group(b, g);
        let s = choose|t: BinWorkX4| #[trigger] bin_update_x4::<A>(p, sample, t, pa);
        let t = choose|t: BinWorkX4| #[trigger] bin_update_x4::<A>(q, c(sample), t, qb);
        assert(q.alpha == p.alpha);
        assert(q.beta == p.beta);
        assert(q.z_re == p.z_re);
        assert(q.z_im == p.z_im);
        assert(q.r_re == p.r_re.scaled(c));
        assert(q.r_im == p.r_im.scaled(c));
        assert(q.rr_re == p.rr_re.scaled(c));
        assert(q.rr_im == p.rr_im.scaled(c));
        assert(Lanes::all(c(sample)) == Lanes::all(sample).scaled(c));
        assert(t.one_m_alpha == s.one_m_alpha);
        assert(t.one_m_beta == s.one_m_beta);
        assert(t.alpha_sample == s.alpha_sample.scaled(c));
        assert(t.alpha_sample_z_re == s.alpha_sample_z_re.scaled(c));
        assert(t.alpha_sample_z_im == s.alpha_sample_z_im.scaled(c));
        assert(qb.r_re == pa.r_re.scaled(c));
        assert(qb.r_im == pa.r_im.scaled(c));
        assert(qb.rr_re == pa.rr_re.scaled(c));
        assert(qb.rr_im == pa.rr_im.scaled(c));
        let i = k - 4 * g;
        assert(pa.r_re.lane(i) == a[k].r.re && qb.r_re.lane(i) == b[k].r.re);
        assert(pa.r_im.lane(i) == a[k].r.im && qb.r_im.lane(i) == b[k].r.im);
        assert(pa.rr_re.lane(i) == a[k].rr.re && qb.rr_re.lane(i) == b[k].rr.re);
        assert(pa.rr_im.lane(i) == a[k].rr.im && qb.rr_im.lane(i) == b[k].rr.im);
    } else {
        assert(bin_step::<A>(pre[k], sample, a[k]));
        assert(bin_step::<A>(pre_b[k], c(sample), b[k]));
        let s = choose|t: BinWork| #[trigger] bin_update::<A>(pre[k], sample, t, a[k]);
        let t = choose|t: BinWork| #[trigger] bin_update::<A>(pre_b[k], c(sample), t, b[k]);
        assert(t.alpha_sample == c(s.alpha_sample));
        assert(b[k].r == a[k].r.scaled(c));
        assert(b[k].rr == a[k].rr.scaled(c));
    }
}

/// The bank is linear in its input and outputs together: with arithmetic that
/// is repeatable and scales by `c`, scaled samples take a bank with scaled
/// outputs to the bank that the samples lead to, with scaled outputs.
pub proof fn scaled_samples_scale_the_bank<A: Arithmetic>(
    path: Path,
    c: spec_fn(Binary32) -> Binary32,
    pre: BankState,
    samples: Seq<Binary32>,
    a: BankState,
    b: BankState,
)
    requires
        repeatable::<A>(),
        scales_by::<A>(c),
        processed::<A>(path, pre, samples, a),
        processed::<A>(path, pre.scaled(c), samples.map_values(c), b),
    ensures
        b == a.scaled(c),
    decreases samples.len(),
{
    let scaled = samples.map_values(c);
    if samples.len() > 0 {
        let p = choose|mid: BankState|
            processed::<A>(path, pre, samples.drop_last(), mid) && #[trigger] sample_step::<A>(
                path,
                mid,
                samples.last(),
                a,
            );
        let q = choose|mid: BankState|
            processed::<A>(path, pre.scaled(c), scaled.drop_last(), mid)
                && #[trigger] sample_step::<A>(path, mid, scaled.last(), b);
        assert(scaled.drop_last() =~= samples.drop_last().map_values(c));
        assert(scaled.last() == c(samples.last()));
        scaled_samples_scale_the_bank::<A>(path, c, pre, samples.drop_last(), p, q);
        let s = choose|mid: Seq<Bin>| #[trigger]
            bins_step::<A>(path, p.bins, samples.last(), mid) && settled::<A>(
                mid,
                a.count,
                a.bins,
            );
        let t = choose|mid: Seq<Bin>| #[trigger]
            bins_step::<A>(path, q.bins, scaled.last(), mid) && settled::<A>(
                mid,
                b.count,
                b.bins,
            );
        assert forall|k: int| 0 <= k < a.bins.len() implies #[trigger] b.bins[k]
            == a.bins[k].scaled(c) by {
            step_scales::<A>(path, c, p.bins, samples.last(), s, q.bins, t, k);
            if stabilization_due(a.count) {
                assert(bin_stabilized::<A>(s[k], a.bins[k]));
                assert(bin_stabilized::<A>(t[k], b.bins[k]));
                stabilized_alike::<A>(s[k], a.bins[k], t[k], b.bins[k]);
            }
        }
    }
    assert(b =~= a.scaled(c));
}

/// The readings are linear in the input: with arithmetic that is repeatable and
/// scales by `c`, which keeps zero, scaled samples take a bank at rest to one
/// with the same phasors and scaled outputs.
pub proof fn scaled_samples_scale_the_readings<A: Arithmetic>(
    path: Path,
    c: spec_fn(Binary32) -> Binary32,
    pre: BankState,
    samples: Seq<Binary32>,
    a: BankState,
    b: BankState,
)
    requires
        repeatable::<A>(),
        scales_by::<A>(c),
        c(zero()) == zero(),
        pre == pre.at_rest(),
        processed::<A>(path, pre, samples, a),
        processed::<A>(path, pre, samples.map_values(c), b),
    ensures
        b.count == a.count,
        b.bins.len() == a.bins.len(),
        forall|k: int|
            0 <= k < a.bins.len() ==> {
                &&& (#[trigger] b.bins[k]).z == a.bins[k].z
                &&& b.bins[k].r == a.bins[k].r.scaled(c)
                &&& b.bins[k].rr == a.bins[k].rr.scaled(c)
            },
{
    assert forall|k: int| 0 <= k < pre.bins.len() implies #[trigger] pre.scaled(c).bins[k]
        == pre.bins[k] by {
        assert(pre.bins[k] == pre.at_rest().bins[k]);
        assert(origin().scaled(c) == origin());
    }
    assert(pre.scaled(c) =~= pre);
    scaled_samples_scale_the_bank::<A>(path, c, pre, samples, a, b);
}

/// The power scales by `c` twice where the reading scales by `c`, if squares
/// and sums do.
pub proof fn power_scales_twice<A: Arithmetic>(
    c: spec_fn(Binary32) -> Binary32,
    reading: Complex,
    p: Binary32,
    q: Binary32,
)
    requires
        squares_scale_by::<A>(c),
        power_of::<A>(reading, p),
        power_of::<A>(reading.scaled(c), q),
    ensures
        q == c(c(p)),
{
    let (a, b) = choose|a: Binary32, b: Binary32| #[trigger] power_sum::<A>(reading, a, b, p);
    let (d, e) = choose|d: Binary32, e: Binary32| #[trigger]
        power_sum::<A>(reading.scaled(c), d, e, q);
    assert(d == c(c(a)));
    assert(e == c(c(b)));
}

/// A rotation depends on the ratio of frequency and sample rate: with arithmetic
/// that is repeatable, scales by `c` and cancels it in quotients, scaling both
/// keeps the rotation.
pub proof fn scaled_rates_rotate_alike<A: Arithmetic>(
    c: spec_fn(Binary32) -> Binary32,
    freq: Binary32,
    sample_rate: Binary32,
    w: Complex,
    v: Complex,
)
    requires
        repeatable::<A>(),
        scales_by::<A>(c),
        quotients_cancel::<A>(c),
        rotation::<A>(freq, sample_rate, w),
        rotation::<A>(c(freq), c(sample_rate), v),
    ensures
        w == v,
{
    let s = choose|t: AngleWork| #[trigger]
        phasor_angle::<A>(freq, sample_rate, t) && cosine::<A>(t.angle, w.re) && sine::<A>(
            t.angle,
            w.im,
        );
    let t = choose|t: AngleWork| #[trigger]
        phasor_angle::<A>(c(freq), c(sample_rate), t) && cosine::<A>(t.angle, v.re) && sine::<A>(
            t.angle,
            v.im,
        );
    assert(t.minus_two_pi == s.minus_two_pi);
    assert(t.turn == c(s.turn));
    assert(t.angle == s.angle);
}

/// Scaling every frequency and the sample rate builds a bank with the same
/// rotations, under the arithmetic of [`scaled_rates_rotate_alike`].
pub proof fn scaled_configs_rotate_alike<A: Arithmetic>(
    c: spec_fn(Binary32) -> Binary32,
    configs: Seq<ResonatorConfig>,
    sample_rate: Binary32,
    a: BankState,
    b: BankState,
)
    requires
        repeatable::<A>(),
        scales_by::<A>(c),
        quotients_cancel::<A>(c),
        built::<A>(configs, sample_rate, a),
        built::<A>(
            configs.map_values(
                |x: ResonatorConfig|
                    ResonatorConfig { freq: c(x.freq), alpha: x.alpha, beta: x.beta },
            ),
            c(sample_rate),
            b,
        ),
    ensures
        a.bins.len() == b.bins.len(),
        forall|k: int| 0 <= k < a.bins.len() ==> (#[trigger] a.bins[k]).w == b.bins[k].w,
{
    let scaled = configs.map_values(
        |x: ResonatorConfig| ResonatorConfig { freq: c(x.freq), alpha: x.alpha, beta: x.beta },
    );
    assert forall|k: int| 0 <= k < a.bins.len() implies (#[trigger] a.bins[k]).w
        == b.bins[k].w by {
        assert(tuned::<A>(configs[k], sample_rate, a.bins[k]));
        assert(tuned::<A>(scaled[k], c(sample_rate), b.bins[k]));
        scaled_rates_rotate_alike::<A>(
            c,
            configs[k].freq,
            sample_rate,
            a.bins[k].w,
            b.bins[k].w,
        );
    }
}

} // verus!

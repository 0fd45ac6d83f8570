//! A bank worked out by hand.
//!
//! Each function below says what number comes out when the operations of an
//! arithmetic are called one after the other, whatever they return. With
//! repeatable arithmetic those are the numbers that a bank holds and returns,
//! bit for bit and for every operand.

use crate::arithmetic::{
    cosine, difference, difference_x4, direction, lane_local, lanes_agree, multiply_add,
    multiply_add_x4, product, product_x4, quotient, repeatable, sine, square_root, suggested_alpha, sum,
    sum_x4, Arithmetic,
};
use crate::bank::ResonatorBank;
use crate::config::ResonatorConfig;
use crate::model::{
    bin_stabilized, bin_step, bin_update, bin_update_x4, bins_step, group, group_step, grouped,
    phasor_angle, phasor_stabilized, power_of, power_sum, processed, rotation, sample_step, settled, tuned,
    AngleWork, BankState, Bin, BinWork, BinWorkX4, Path, StabilizeWork, STABILIZE_EVERY,
};
use crate::number::{minus_two, one, pi, zero, Binary32, Complex, Lanes};
use crate::outcomes::{from_frequencies_is_new, readings_are_repeatable};
use vstd::prelude::*;

verus! {

// ---------------------------------------------------------------------------
// Operations and constants
// ---------------------------------------------------------------------------

/// Every predicate on outcomes speaks of the operation it is named after, with
/// the operands in the order in which it takes them.
pub proof fn outcomes_are_of_calls<A: Arithmetic>(
    a: Binary32,
    b: Binary32,
    c: Binary32,
    r: Binary32,
)
    ensures
        sum::<A>(a, b, r) <==> call_ensures(A::plus, (a, b), r),
        difference::<A>(a, b, r) <==> call_ensures(A::minus, (a, b), r),
        product::<A>(a, b, r) <==> call_ensures(A::times, (a, b), r),
        quotient::<A>(a, b, r) <==> call_ensures(A::over, (a, b), r),
        multiply_add::<A>(a, b, c, r) <==> call_ensures(A::mul_add, (a, b, c), r),
        square_root::<A>(a, r) <==> call_ensures(A::sqrt, (a,), r),
        cosine::<A>(a, r) <==> call_ensures(A::cos, (a,), r),
        sine::<A>(a, r) <==> call_ensures(A::sin, (a,), r),
        direction::<A>(a, b, r) <==> call_ensures(A::atan2, (a, b), r),
        suggested_alpha::<A>(a, b, r) <==> call_ensures(A::heuristic_alpha, (a, b), r),
{
}

/// The same of the predicates on the outcomes of operations on four lanes.
pub proof fn outcomes_are_of_calls_on_lanes<A: Arithmetic>(a: Lanes, b: Lanes, c: Lanes, r: Lanes)
    ensures
        sum_x4::<A>(a, b, r) <==> call_ensures(A::plus_x4, (a, b), r),
        difference_x4::<A>(a, b, r) <==> call_ensures(A::minus_x4, (a, b), r),
        product_x4::<A>(a, b, r) <==> call_ensures(A::times_x4, (a, b), r),
        multiply_add_x4::<A>(a, b, c, r) <==> call_ensures(A::mul_add_x4, (a, b, c), r),
{
}

/// The constants are the single-precision numbers nearest to what they are
/// named after, and the rates that a bank accepts are the positive finite ones.
pub proof fn constants_are_single_precision(x: Binary32)
    ensures
        zero() == (Binary32 { bits: 0 }),
        one() == (Binary32 { bits: 0x3f80_0000 }),
        minus_two() == (Binary32 { bits: 0xc000_0000 }),
        pi() == (Binary32 { bits: 0x4049_0fdb }),
        x.is_positive_finite() <==> 0 < x.bits < 0x7f80_0000,
        STABILIZE_EVERY == 512,
{
}

/// The lanes of a group are its four numbers in order, and one number put in
/// every lane is in each of them.
pub proof fn lanes_are_in_order(x: Lanes, y: Binary32, i: int, all: Lanes)
    requires
        call_ensures(Lanes::splat, (y,), all),
    ensures
        x.lane(0) == x.x0,
        x.lane(1) == x.x1,
        x.lane(2) == x.x2,
        x.lane(3) == x.x3,
        all.lane(i) == y,
        Lanes::all(y) == all,
{
}

// ---------------------------------------------------------------------------
// One sample
// ---------------------------------------------------------------------------

/// `to` is `(1 - weight) * from + weight * sample * part`.
pub open spec fn accumulates<A: Arithmetic>(
    weight: Binary32,
    sample: Binary32,
    part: Binary32,
    from: Binary32,
    to: Binary32,
) -> bool {
    forall|rest: Binary32, gain: Binary32, term: Binary32, r: Binary32|
        #![trigger difference::<A>(one(), weight, rest), product::<A>(gain, part, term), multiply_add::<A>(rest, from, term, r)]
        difference::<A>(one(), weight, rest) && product::<A>(weight, sample, gain) && product::<A>(
            gain,
            part,
            term,
        ) && multiply_add::<A>(rest, from, term, r) ==> to == r
}

/// `to` is `(1 - weight) * from + weight * target`.
pub open spec fn smooths<A: Arithmetic>(
    weight: Binary32,
    target: Binary32,
    from: Binary32,
    to: Binary32,
) -> bool {
    forall|rest: Binary32, term: Binary32, r: Binary32|
        #![trigger difference::<A>(one(), weight, rest), multiply_add::<A>(rest, from, term, r)]
        difference::<A>(one(), weight, rest) && product::<A>(weight, target, term)
            && multiply_add::<A>(rest, from, term, r) ==> to == r
}

/// `to` is the complex product of `z` and `w`.
pub open spec fn rotates<A: Arithmetic>(z: Complex, w: Complex, to: Complex) -> bool {
    &&& forall|a: Binary32, b: Binary32, r: Binary32|
        #![trigger difference::<A>(a, b, r)]
        product::<A>(z.re, w.re, a) && product::<A>(z.im, w.im, b) && difference::<A>(a, b, r)
            ==> to.re == r
    &&& forall|a: Binary32, b: Binary32, r: Binary32|
        #![trigger sum::<A>(a, b, r)]
        product::<A>(z.re, w.im, a) && product::<A>(z.im, w.re, b) && sum::<A>(a, b, r) ==> to.im
            == r
}

/// `to` is `z` times the inverse of its length.
pub open spec fn stabilizes<A: Arithmetic>(z: Complex, to: Complex) -> bool {
    forall|a: Binary32, b: Binary32, p: Binary32, m: Binary32, i: Binary32, r: Complex|
        #![trigger sum::<A>(a, b, p), square_root::<A>(p, m), quotient::<A>(one(), m, i), product::<A>(z.re, i, r.re), product::<A>(z.im, i, r.im)]
        product::<A>(z.re, z.re, a) && product::<A>(z.im, z.im, b) && sum::<A>(a, b, p)
            && square_root::<A>(p, m) && quotient::<A>(one(), m, i) && product::<A>(z.re, i, r.re)
            && product::<A>(z.im, i, r.im) ==> to == r
}

/// A sample takes the resonator `pre` to `post`, its phasor to `z` before any
/// stabilization: `r` and `rr` are averages and the phasor is rotated; what
/// tunes the resonator stays.
pub open spec fn stepped<A: Arithmetic>(pre: Bin, sample: Binary32, z: Complex, post: Bin) -> bool {
    &&& accumulates::<A>(pre.alpha, sample, pre.z.re, pre.r.re, post.r.re)
    &&& accumulates::<A>(pre.alpha, sample, pre.z.im, pre.r.im, post.r.im)
    &&& smooths::<A>(pre.beta, post.r.re, pre.rr.re, post.rr.re)
    &&& smooths::<A>(pre.beta, post.r.im, pre.rr.im, post.rr.im)
    &&& rotates::<A>(pre.z, pre.w, z)
    &&& post.freq == pre.freq
    &&& post.alpha == pre.alpha
    &&& post.beta == pre.beta
    &&& post.w == pre.w
}

/// A sample takes resonator `k` of `pre` to that of `post`: it steps with the
/// numbers of `B`, and where the sample makes the count a multiple of 512, its
/// phasor is then stabilized with those of `A`.
pub open spec fn sampled<A: Arithmetic, B: Arithmetic>(
    pre: BankState,
    sample: Binary32,
    post: BankState,
    k: int,
) -> bool {
    exists|z: Complex| #[trigger]
        stepped::<B>(pre.bins[k], sample, z, post.bins[k]) && if (pre.count + 1) % 512 == 0 {
            stabilizes::<A>(z, post.bins[k].z)
        } else {
            post.bins[k].z == z
        }
}

proof fn bin_step_by_hand<A: Arithmetic>(pre: Bin, sample: Binary32, post: Bin)
    requires
        repeatable::<A>(),
        bin_step::<A>(pre, sample, post),
    ensures
        stepped::<A>(pre, sample, post.z, post),
{
    let t = choose|t: BinWork| #[trigger] bin_update::<A>(pre, sample, t, post);
}

proof fn group_step_by_hand<A: Arithmetic, B: Arithmetic>(
    pre: Seq<Bin>,
    sample: Binary32,
    post: Seq<Bin>,
    k: int,
)
    requires
        lanes_agree::<A, B>(),
        group_step::<A>(pre, k / 4, sample, post),
        pre[k].same_tuning(post[k]),
    ensures
        stepped::<B>(pre[k], sample, post[k].z, post[k]),
{
    let g = k / 4;
    let i = k - 4 * g;
    let p = group(pre, g);
    let q = group(post, g);
    let t = choose|t: BinWorkX4| #[trigger] bin_update_x4::<A>(p, sample, t, q);
    let (x, y) = (pre[k], post[k]);
    let ones = Lanes::all(one());
    let samples = Lanes::all(sample);
    assert(ones.lane(i) == one());
    assert(samples.lane(i) == sample);
    assert(p.alpha.lane(i) == x.alpha && p.beta.lane(i) == x.beta);
    assert(p.w_re.lane(i) == x.w.re && p.w_im.lane(i) == x.w.im);
    assert(p.z_re.lane(i) == x.z.re && p.z_im.lane(i) == x.z.im);
    assert(p.r_re.lane(i) == x.r.re && p.r_im.lane(i) == x.r.im);
    assert(p.rr_re.lane(i) == x.rr.re && p.rr_im.lane(i) == x.rr.im);
    assert(q.z_re.lane(i) == y.z.re && q.z_im.lane(i) == y.z.im);
    assert(q.r_re.lane(i) == y.r.re && q.r_im.lane(i) == y.r.im);
    assert(q.rr_re.lane(i) == y.rr.re && q.rr_im.lane(i) == y.rr.im);
}

/// A step of a bank, worked out by hand: of a resonator after the groups with
/// the operations on numbers, of one in a group with numbers that the lanes
/// agree with.
pub proof fn sample_step_by_hand<A: Arithmetic, B: Arithmetic>(
    path: Path,
    pre: BankState,
    sample: Binary32,
    post: BankState,
    k: int,
)
    requires
        repeatable::<A>(),
        sample_step::<A>(path, pre, sample, post),
        0 <= k < pre.bins.len(),
    ensures
        post.count == pre.count + 1,
        post.bins.len() == pre.bins.len(),
        path is Simd && k < pre.bins.len() / 4 * 4 && lanes_agree::<A, B>() ==> sampled::<A, B>(
            pre,
            sample,
            post,
            k,
        ),
        path is Scalar || pre.bins.len() / 4 * 4 <= k ==> sampled::<A, A>(pre, sample, post, k),
{
    let mid = choose|mid: Seq<Bin>| #[trigger]
        bins_step::<A>(path, pre.bins, sample, mid) && settled::<A>(mid, post.count, post.bins);
    assert(pre.bins[k].same_tuning(mid[k]));
    let z = mid[k].z;
    if post.count % 512 == 0 {
        assert(bin_stabilized::<A>(mid[k], post.bins[k]));
        let t = choose|t: StabilizeWork| #[trigger]
            phasor_stabilized::<A>(z, t, post.bins[k].z);
        assert(stabilizes::<A>(z, post.bins[k].z));
    }
    if k < grouped(path, pre.bins.len()) {
        assert(group_step::<A>(pre.bins, k / 4, sample, mid));
        if lanes_agree::<A, B>() {
            group_step_by_hand::<A, B>(pre.bins, sample, mid, k);
            assert(stepped::<B>(pre.bins[k], sample, z, post.bins[k]));
        }
    } else {
        assert(bin_step::<A>(pre.bins[k], sample, mid[k]));
        bin_step_by_hand::<A>(pre.bins[k], sample, mid[k]);
        assert(stepped::<A>(pre.bins[k], sample, z, post.bins[k]));
    }
}

/// A sample takes every resonator where its operations take it by hand.
pub proof fn process_sample_by_hand<A: Arithmetic, B: Arithmetic>(sample: Binary32, k: int)
    requires
        repeatable::<A>(),
    ensures
        forall|bank: &mut ResonatorBank|
            #![trigger call_ensures(ResonatorBank::process_sample::<A>, (bank, sample), ())]
            call_ensures(ResonatorBank::process_sample::<A>, (bank, sample), ()) && 0 <= k
                < (*bank)@.bins.len() ==> {
                let n = (*bank)@.bins.len();
                &&& (*final(bank))@.bins.len() == n
                &&& (*final(bank))@.count == (*bank)@.count + 1
                &&& k < n / 4 * 4 && lanes_agree::<A, B>() ==> sampled::<A, B>(
                    (*bank)@,
                    sample,
                    (*final(bank))@,
                    k,
                )
                &&& n / 4 * 4 <= k ==> sampled::<A, A>((*bank)@, sample, (*final(bank))@, k)
            },
{
    assert forall|bank: &mut ResonatorBank|
        #![trigger call_ensures(ResonatorBank::process_sample::<A>, (bank, sample), ())]
        call_ensures(ResonatorBank::process_sample::<A>, (bank, sample), ()) && 0 <= k
            < (*bank)@.bins.len() implies {
        let n = (*bank)@.bins.len();
        &&& (*final(bank))@.bins.len() == n
        &&& (*final(bank))@.count == (*bank)@.count + 1
        &&& k < n / 4 * 4 && lanes_agree::<A, B>() ==> sampled::<A, B>(
            (*bank)@,
            sample,
            (*final(bank))@,
            k,
        )
        &&& n / 4 * 4 <= k ==> sampled::<A, A>((*bank)@, sample, (*final(bank))@, k)
    } by {
        sample_step_by_hand::<A, B>(Path::Simd, (*bank)@, sample, (*final(bank))@, k);
    }
}

/// A block of one sample is a step with that sample.
proof fn block_of_one<A: Arithmetic>(
    path: Path,
    pre: BankState,
    samples: Seq<Binary32>,
    post: BankState,
)
    requires
        samples.len() == 1,
        processed::<A>(path, pre, samples, post),
    ensures
        sample_step::<A>(path, pre, samples[0], post),
{
    let mid = choose|mid: BankState|
        processed::<A>(path, pre, samples.drop_last(), mid) && #[trigger] sample_step::<A>(
            path,
            mid,
            samples.last(),
            post,
        );
    assert(mid == pre);
}

/// A block of one sample takes every resonator where its operations take it by
/// hand, on the scalar path each of them with the operations on numbers.
pub proof fn process_one_by_hand<A: Arithmetic, B: Arithmetic>(samples: &[Binary32], k: int)
    requires
        repeatable::<A>(),
        samples@.len() == 1,
    ensures
        forall|bank: &mut ResonatorBank|
            #![trigger call_ensures(ResonatorBank::process_samples::<A>, (bank, samples), ())]
            call_ensures(ResonatorBank::process_samples::<A>, (bank, samples), ()) && 0 <= k
                < (*bank)@.bins.len() ==> {
                let n = (*bank)@.bins.len();
                &&& (*final(bank))@.bins.len() == n
                &&& (*final(bank))@.count == (*bank)@.count + 1
                &&& k < n / 4 * 4 && lanes_agree::<A, B>() ==> sampled::<A, B>(
                    (*bank)@,
                    samples@[0],
                    (*final(bank))@,
                    k,
                )
                &&& n / 4 * 4 <= k ==> sampled::<A, A>((*bank)@, samples@[0], (*final(bank))@, k)
            },
        forall|bank: &mut ResonatorBank|
            #![trigger call_ensures(ResonatorBank::process_samples_scalar::<A>, (bank, samples), ())]
            call_ensures(ResonatorBank::process_samples_scalar::<A>, (bank, samples), ()) && 0 <= k
                < (*bank)@.bins.len() ==> {
                &&& (*final(bank))@.bins.len() == (*bank)@.bins.len()
                &&& (*final(bank))@.count == (*bank)@.count + 1
                &&& sampled::<A, A>((*bank)@, samples@[0], (*final(bank))@, k)
            },
{
    assert forall|bank: &mut ResonatorBank|
        #![trigger call_ensures(ResonatorBank::process_samples::<A>, (bank, samples), ())]
        call_ensures(ResonatorBank::process_samples::<A>, (bank, samples), ()) && 0 <= k
            < (*bank)@.bins.len() implies {
        let n = (*bank)@.bins.len();
        &&& (*final(bank))@.bins.len() == n
        &&& (*final(bank))@.count == (*bank)@.count + 1
        &&& k < n / 4 * 4 && lanes_agree::<A, B>() ==> sampled::<A, B>(
            (*bank)@,
            samples@[0],
            (*final(bank))@,
            k,
        )
        &&& n / 4 * 4 <= k ==> sampled::<A, A>((*bank)@, samples@[0], (*final(bank))@, k)
    } by {
        block_of_one::<A>(Path::Simd, (*bank)@, samples@, (*final(bank))@);
        sample_step_by_hand::<A, B>(Path::Simd, (*bank)@, samples@[0], (*final(bank))@, k);
    }
    assert forall|bank: &mut ResonatorBank|
        #![trigger call_ensures(ResonatorBank::process_samples_scalar::<A>, (bank, samples), ())]
        call_ensures(ResonatorBank::process_samples_scalar::<A>, (bank, samples), ()) && 0 <= k
            < (*bank)@.bins.len() implies {
        &&& (*final(bank))@.bins.len() == (*bank)@.bins.len()
        &&& (*final(bank))@.count == (*bank)@.count + 1
        &&& sampled::<A, A>((*bank)@, samples@[0], (*final(bank))@, k)
    } by {
        block_of_one::<A>(Path::Scalar, (*bank)@, samples@, (*final(bank))@);
        sample_step_by_hand::<A, A>(Path::Scalar, (*bank)@, samples@[0], (*final(bank))@, k);
    }
}

// ---------------------------------------------------------------------------
// What a step depends on
// ---------------------------------------------------------------------------

/// The parts of a resonator after a sample depend on their own weights and
/// values alone, in whichever banks and at whichever places the two resonators
/// stand: `r` on `alpha`, `r`, the phasor and the sample; `rr` on `beta`, `rr`
/// and the new `r`; the phasor on the phasor, the rotation and whether it is
/// due for stabilization.
pub open spec fn parts_depend_on_their_own(
    pre_a: Bin,
    sample_a: Binary32,
    a: Bin,
    pre_b: Bin,
    sample_b: Binary32,
    b: Bin,
    both_due_or_not: bool,
) -> bool {
    &&& pre_a.alpha == pre_b.alpha && sample_a == sample_b && pre_a.z.re == pre_b.z.re
        && pre_a.r.re == pre_b.r.re ==> a.r.re == b.r.re
    &&& pre_a.alpha == pre_b.alpha && sample_a == sample_b && pre_a.z.im == pre_b.z.im
        && pre_a.r.im == pre_b.r.im ==> a.r.im == b.r.im
    &&& pre_a.beta == pre_b.beta && pre_a.rr.re == pre_b.rr.re && a.r.re == b.r.re ==> a.rr.re
        == b.rr.re
    &&& pre_a.beta == pre_b.beta && pre_a.rr.im == pre_b.rr.im && a.r.im == b.r.im ==> a.rr.im
        == b.rr.im
    // the same average is taken of both parts
    &&& pre_a.beta == pre_b.beta && pre_a.rr.re == pre_b.rr.im && a.r.re == b.r.im ==> a.rr.re
        == b.rr.im
    &&& pre_a.alpha == pre_b.alpha && sample_a == sample_b && pre_a.z.re == pre_b.z.im
        && pre_a.r.re == pre_b.r.im ==> a.r.re == b.r.im
    &&& both_due_or_not && pre_a.z == pre_b.z && pre_a.w == pre_b.w ==> a.z == b.z
}

proof fn bin_steps_depend_on_their_own<A: Arithmetic>(
    pre_a: Bin,
    sample_a: Binary32,
    a: Bin,
    pre_b: Bin,
    sample_b: Binary32,
    b: Bin,
)
    requires
        repeatable::<A>(),
        bin_step::<A>(pre_a, sample_a, a),
        bin_step::<A>(pre_b, sample_b, b),
    ensures
        parts_depend_on_their_own(pre_a, sample_a, a, pre_b, sample_b, b, true),
{
    let s = choose|t: BinWork| #[trigger] bin_update::<A>(pre_a, sample_a, t, a);
    let t = choose|t: BinWork| #[trigger] bin_update::<A>(pre_b, sample_b, t, b);
}

proof fn group_steps_depend_on_their_own<A: Arithmetic>(
    pre_a: Seq<Bin>,
    sample_a: Binary32,
    a: Seq<Bin>,
    k: int,
    pre_b: Seq<Bin>,
    sample_b: Binary32,
    b: Seq<Bin>,
    l: int,
)
    requires
        lane_local::<A>(),
        group_step::<A>(pre_a, k / 4, sample_a, a),
        group_step::<A>(pre_b, l / 4, sample_b, b),
    ensures
        parts_depend_on_their_own(pre_a[k], sample_a, a[k], pre_b[l], sample_b, b[l], true),
{
    let i = k - 4 * (k / 4);
    let j = l - 4 * (l / 4);
    let (p, q) = (group(pre_a, k / 4), group(a, k / 4));
    let (u, v) = (group(pre_b, l / 4), group(b, l / 4));
    let s = choose|t: BinWorkX4| #[trigger] bin_update_x4::<A>(p, sample_a, t, q);
    let t = choose|t: BinWorkX4| #[trigger] bin_update_x4::<A>(u, sample_b, t, v);
    let ones = Lanes::all(one());
    assert(ones.lane(i) == one() && ones.lane(j) == one());
    assert(Lanes::all(sample_a).lane(i) == sample_a && Lanes::all(sample_b).lane(j) == sample_b);
    let (x, y) = (pre_a[k], a[k]);
    assert(p.alpha.lane(i) == x.alpha && p.beta.lane(i) == x.beta);
    assert(p.w_re.lane(i) == x.w.re && p.w_im.lane(i) == x.w.im);
    assert(p.z_re.lane(i) == x.z.re && p.z_im.lane(i) == x.z.im);
    assert(p.r_re.lane(i) == x.r.re && p.r_im.lane(i) == x.r.im);
    assert(p.rr_re.lane(i) == x.rr.re && p.rr_im.lane(i) == x.rr.im);
    assert(q.z_re.lane(i) == y.z.re && q.z_im.lane(i) == y.z.im);
    assert(q.r_re.lane(i) == y.r.re && q.r_im.lane(i) == y.r.im);
    assert(q.rr_re.lane(i) == y.rr.re && q.rr_im.lane(i) == y.rr.im);
    let (x, y) = (pre_b[l], b[l]);
    assert(u.alpha.lane(j) == x.alpha && u.beta.lane(j) == x.beta);
    assert(u.w_re.lane(j) == x.w.re && u.w_im.lane(j) == x.w.im);
    assert(u.z_re.lane(j) == x.z.re && u.z_im.lane(j) == x.z.im);
    assert(u.r_re.lane(j) == x.r.re && u.r_im.lane(j) == x.r.im);
    assert(u.rr_re.lane(j) == x.rr.re && u.rr_im.lane(j) == x.rr.im);
    assert(v.z_re.lane(j) == y.z.re && v.z_im.lane(j) == y.z.im);
    assert(v.r_re.lane(j) == y.r.re && v.r_im.lane(j) == y.r.im);
    assert(v.rr_re.lane(j) == y.rr.re && v.rr_im.lane(j) == y.rr.im);
    assert(pre_a[k].alpha == pre_b[l].alpha ==> s.one_m_alpha.lane(i) == t.one_m_alpha.lane(j));
    assert(pre_a[k].beta == pre_b[l].beta ==> s.one_m_beta.lane(i) == t.one_m_beta.lane(j));
    assert(pre_a[k].alpha == pre_b[l].alpha && sample_a == sample_b ==> s.alpha_sample.lane(i)
        == t.alpha_sample.lane(j));
}

/// With repeatable and lane-local arithmetic, what a sample makes of each part
/// of a resonator depends on that part's own weight and values alone. So the
/// smoothed output takes nothing from `alpha` beyond what the accumulated
/// output took, nor the accumulated output anything from `beta`, and neither
/// shows in the phasor.
pub proof fn sample_parts_depend_on_their_own<A: Arithmetic>(
    path_a: Path,
    pre_a: BankState,
    sample_a: Binary32,
    a: BankState,
    k: int,
    path_b: Path,
    pre_b: BankState,
    sample_b: Binary32,
    b: BankState,
    l: int,
)
    requires
        repeatable::<A>(),
        sample_step::<A>(path_a, pre_a, sample_a, a),
        sample_step::<A>(path_b, pre_b, sample_b, b),
        0 <= k < pre_a.bins.len(),
        0 <= l < pre_b.bins.len(),
        (path_a is Simd && k < pre_a.bins.len() / 4 * 4) == (path_b is Simd && l < pre_b.bins.len()
            / 4 * 4),
        path_a is Simd && k < pre_a.bins.len() / 4 * 4 ==> lane_local::<A>(),
    ensures
        parts_depend_on_their_own(
            pre_a.bins[k],
            sample_a,
            a.bins[k],
            pre_b.bins[l],
            sample_b,
            b.bins[l],
            ((pre_a.count + 1) % 512 == 0) == ((pre_b.count + 1) % 512 == 0),
        ),
{
    let mid_a = choose|mid: Seq<Bin>| #[trigger]
        bins_step::<A>(path_a, pre_a.bins, sample_a, mid) && settled::<A>(mid, a.count, a.bins);
    let mid_b = choose|mid: Seq<Bin>| #[trigger]
        bins_step::<A>(path_b, pre_b.bins, sample_b, mid) && settled::<A>(mid, b.count, b.bins);
    if k < grouped(path_a, pre_a.bins.len()) {
        assert(group_step::<A>(pre_a.bins, k / 4, sample_a, mid_a));
        assert(group_step::<A>(pre_b.bins, l / 4, sample_b, mid_b));
        group_steps_depend_on_their_own::<A>(
            pre_a.bins,
            sample_a,
            mid_a,
            k,
            pre_b.bins,
            sample_b,
            mid_b,
            l,
        );
    } else {
        assert(bin_step::<A>(pre_a.bins[k], sample_a, mid_a[k]));
        assert(bin_step::<A>(pre_b.bins[l], sample_b, mid_b[l]));
        bin_steps_depend_on_their_own::<A>(
            pre_a.bins[k],
            sample_a,
            mid_a[k],
            pre_b.bins[l],
            sample_b,
            mid_b[l],
        );
    }
    if a.count % 512 == 0 {
        assert(bin_stabilized::<A>(mid_a[k], a.bins[k]));
    }
    if b.count % 512 == 0 {
        assert(bin_stabilized::<A>(mid_b[l], b.bins[l]));
    }
    if a.count % 512 == 0 && b.count % 512 == 0 {
        let s = choose|t: StabilizeWork| #[trigger]
            phasor_stabilized::<A>(mid_a[k].z, t, a.bins[k].z);
        let t = choose|t: StabilizeWork| #[trigger]
            phasor_stabilized::<A>(mid_b[l].z, t, b.bins[l].z);
        if mid_a[k].z == mid_b[l].z {
            assert(s == t);
        }
    }
}

/// Of any two samples that any two banks are given: what becomes of each part
/// of a resonator depends on that part's own weight and values alone.
pub proof fn process_sample_depends_on_its_own<A: Arithmetic>(
    sample_a: Binary32,
    sample_b: Binary32,
    k: int,
    l: int,
)
    requires
        repeatable::<A>(),
        lane_local::<A>(),
    ensures
        forall|a: &mut ResonatorBank, b: &mut ResonatorBank|
            #![trigger call_ensures(ResonatorBank::process_sample::<A>, (a, sample_a), ()), call_ensures(ResonatorBank::process_sample::<A>, (b, sample_b), ())]
            call_ensures(ResonatorBank::process_sample::<A>, (a, sample_a), ()) && call_ensures(
                ResonatorBank::process_sample::<A>,
                (b, sample_b),
                (),
            ) && 0 <= k < (*a)@.bins.len() && 0 <= l < (*b)@.bins.len() && (k < (*a)@.bins.len() / 4
                * 4) == (l < (*b)@.bins.len() / 4 * 4) ==> parts_depend_on_their_own(
                (*a)@.bins[k],
                sample_a,
                (*final(a))@.bins[k],
                (*b)@.bins[l],
                sample_b,
                (*final(b))@.bins[l],
                (((*a)@.count + 1) % 512 == 0) == (((*b)@.count + 1) % 512 == 0),
            ),
{
    assert forall|a: &mut ResonatorBank, b: &mut ResonatorBank|
        #![trigger call_ensures(ResonatorBank::process_sample::<A>, (a, sample_a), ()), call_ensures(ResonatorBank::process_sample::<A>, (b, sample_b), ())]
        call_ensures(ResonatorBank::process_sample::<A>, (a, sample_a), ()) && call_ensures(
            ResonatorBank::process_sample::<A>,
            (b, sample_b),
            (),
        ) && 0 <= k < (*a)@.bins.len() && 0 <= l < (*b)@.bins.len() && (k < (*a)@.bins.len() / 4 * 4)
            == (l < (*b)@.bins.len() / 4 * 4) implies parts_depend_on_their_own(
        (*a)@.bins[k],
        sample_a,
        (*final(a))@.bins[k],
        (*b)@.bins[l],
        sample_b,
        (*final(b))@.bins[l],
        (((*a)@.count + 1) % 512 == 0) == (((*b)@.count + 1) % 512 == 0),
    ) by {
        sample_parts_depend_on_their_own::<A>(
            Path::Simd,
            (*a)@,
            sample_a,
            (*final(a))@,
            k,
            Path::Simd,
            (*b)@,
            sample_b,
            (*final(b))@,
            l,
        );
    }
}

/// The weights of an average belong together: an average of a number with
/// itself is that number.
pub open spec fn averages_keep<A: Arithmetic>() -> bool {
    forall|b: Binary32, x: Binary32, rest: Binary32, term: Binary32, y: Binary32|
        #![trigger difference::<A>(one(), b, rest), product::<A>(b, x, term), multiply_add::<A>(rest, x, term, y)]
        difference::<A>(one(), b, rest) && product::<A>(b, x, term) && multiply_add::<A>(
            rest,
            x,
            term,
            y,
        ) ==> y == x
}

/// An average of a number with itself is that number, in each lane.
pub open spec fn averages_keep_lanes<A: Arithmetic>() -> bool {
    forall|b: Lanes, r: Lanes, x: Lanes, rest: Lanes, term: Lanes, y: Lanes, i: int|
        #![trigger difference_x4::<A>(Lanes::all(one()), b, rest), product_x4::<A>(b, r, term), multiply_add_x4::<A>(rest, x, term, y), y.lane(i)]
        difference_x4::<A>(Lanes::all(one()), b, rest) && product_x4::<A>(b, r, term)
            && multiply_add_x4::<A>(rest, x, term, y) && r.lane(i) == x.lane(i) ==> y.lane(i)
            == x.lane(i)
}

/// Where an average of a number with itself is that number, a smoothed output
/// that has caught up with the accumulated output stays where it is, whatever
/// the weights.
pub proof fn settled_outputs_stay<A: Arithmetic>(
    path: Path,
    pre: BankState,
    sample: Binary32,
    post: BankState,
    k: int,
)
    requires
        averages_keep::<A>(),
        averages_keep_lanes::<A>(),
        sample_step::<A>(path, pre, sample, post),
        0 <= k < pre.bins.len(),
    ensures
        post.bins[k].r.re == pre.bins[k].rr.re ==> post.bins[k].rr.re == pre.bins[k].rr.re,
        post.bins[k].r.im == pre.bins[k].rr.im ==> post.bins[k].rr.im == pre.bins[k].rr.im,
{
    let mid = choose|mid: Seq<Bin>| #[trigger]
        bins_step::<A>(path, pre.bins, sample, mid) && settled::<A>(mid, post.count, post.bins);
    let (x, y) = (pre.bins[k], mid[k]);
    if post.count % 512 == 0 {
        assert(bin_stabilized::<A>(mid[k], post.bins[k]));
    }
    assert(x.same_tuning(y));
    if k < grouped(path, pre.bins.len()) {
        let g = k / 4;
        let i = k - 4 * g;
        let (p, q) = (group(pre.bins, g), group(mid, g));
        assert(group_step::<A>(pre.bins, g, sample, mid));
        let t = choose|t: BinWorkX4| #[trigger] bin_update_x4::<A>(p, sample, t, q);
        assert(p.rr_re.lane(i) == x.rr.re && p.rr_im.lane(i) == x.rr.im);
        assert(q.r_re.lane(i) == y.r.re && q.r_im.lane(i) == y.r.im);
        assert(q.rr_re.lane(i) == y.rr.re && q.rr_im.lane(i) == y.rr.im);
    } else {
        assert(bin_step::<A>(x, sample, y));
        let t = choose|t: BinWork| #[trigger] bin_update::<A>(x, sample, t, y);
    }
}

// ---------------------------------------------------------------------------
// Construction
// ---------------------------------------------------------------------------

/// A new bank holds one resonator per config, in order, each with the frequency
/// and the weights of its config, a phasor of one and outputs of zero, and has
/// seen no sample. The rotation is the cosine and the sine of one and the same
/// angle: the quotient of minus two pi times the frequency by the sample rate.
pub proof fn new_by_hand<A: Arithmetic>(
    configs: &[ResonatorConfig],
    rate: Binary32,
    bank: ResonatorBank,
)
    requires
        call_ensures(ResonatorBank::new::<A>, (configs, rate), bank),
    ensures
        bank@.count == 0,
        bank@.bins.len() == configs@.len(),
        forall|k: int|
            0 <= k < configs@.len() ==> {
                let bin = #[trigger] bank@.bins[k];
                &&& bin.freq == configs@[k].freq
                &&& bin.alpha == configs@[k].alpha
                &&& bin.beta == configs@[k].beta
                &&& bin.z.re.bits == 0x3f80_0000 && bin.z.im.bits == 0
                &&& bin.r.re.bits == 0 && bin.r.im.bits == 0
                &&& bin.rr.re.bits == 0 && bin.rr.im.bits == 0
                &&& turns_by_the_angle::<A>(bin.freq, rate, bin.w)
            },
{
    assert forall|k: int| 0 <= k < configs@.len() implies {
        let bin = #[trigger] bank@.bins[k];
        &&& bin.freq == configs@[k].freq
        &&& bin.alpha == configs@[k].alpha
        &&& bin.beta == configs@[k].beta
        &&& bin.z.re.bits == 0x3f80_0000 && bin.z.im.bits == 0
        &&& bin.r.re.bits == 0 && bin.r.im.bits == 0
        &&& bin.rr.re.bits == 0 && bin.rr.im.bits == 0
        &&& turns_by_the_angle::<A>(bin.freq, rate, bin.w)
    } by {
        let bin = bank@.bins[k];
        assert(tuned::<A>(configs@[k], rate, bin));
        rotation_by_hand::<A>(bin.freq, rate, bin.w);
    }
}

/// `angle` is an outcome of `-2 * pi * freq / rate`.
pub open spec fn angle_of<A: Arithmetic>(freq: Binary32, rate: Binary32, angle: Binary32) -> bool {
    exists|turn: Binary32, turns: Binary32|
        #![trigger product::<A>(turn, freq, turns)]
        product::<A>(minus_two(), pi(), turn) && product::<A>(turn, freq, turns) && quotient::<A>(
            turns,
            rate,
            angle,
        )
}

/// `w` is the cosine and the sine of one and the same outcome of
/// `-2 * pi * freq / rate`.
pub open spec fn turns_by_the_angle<A: Arithmetic>(
    freq: Binary32,
    rate: Binary32,
    w: Complex,
) -> bool {
    exists|angle: Binary32| #[trigger]
        angle_of::<A>(freq, rate, angle) && cosine::<A>(angle, w.re) && sine::<A>(angle, w.im)
}

/// A rotation is the cosine and the sine of one angle of its frequency.
pub proof fn rotation_by_hand<A: Arithmetic>(freq: Binary32, rate: Binary32, w: Complex)
    requires
        rotation::<A>(freq, rate, w),
    ensures
        turns_by_the_angle::<A>(freq, rate, w),
{
    let t = choose|t: AngleWork| #[trigger]
        phasor_angle::<A>(freq, rate, t) && cosine::<A>(t.angle, w.re) && sine::<A>(
            t.angle,
            w.im,
        );
    assert(product::<A>(t.minus_two_pi, freq, t.turn));
    assert(angle_of::<A>(freq, rate, t.angle));
}

/// With repeatable arithmetic, whoever multiplies minus two by pi and by the
/// frequency, divides by the sample rate and takes the cosine and the sine has
/// found the rotation.
pub proof fn rotation_is_found_by_hand<A: Arithmetic>(
    configs: &[ResonatorConfig],
    rate: Binary32,
    bank: ResonatorBank,
    k: int,
    turn: Binary32,
    turns: Binary32,
    angle: Binary32,
    w: Complex,
)
    requires
        repeatable::<A>(),
        call_ensures(ResonatorBank::new::<A>, (configs, rate), bank),
        0 <= k < configs@.len(),
        product::<A>(minus_two(), pi(), turn),
        product::<A>(turn, configs@[k].freq, turns),
        quotient::<A>(turns, rate, angle),
        cosine::<A>(angle, w.re),
        sine::<A>(angle, w.im),
    ensures
        bank@.bins[k].w == w,
{
    new_by_hand::<A>(configs, rate, bank);
    let bin = bank@.bins[k];
    let own = choose|own: Binary32| #[trigger]
        angle_of::<A>(bin.freq, rate, own) && cosine::<A>(own, bin.w.re) && sine::<A>(
            own,
            bin.w.im,
        );
    assert(own == angle);
}

/// A bank built from frequencies is the bank built from one config for each of
/// them, whose weights are both what the arithmetic suggests for the frequency.
pub proof fn from_frequencies_by_hand<A: Arithmetic>(
    freqs: &[Binary32],
    rate: Binary32,
    bank: ResonatorBank,
    configs: &[ResonatorConfig],
    other: ResonatorBank,
)
    requires
        call_ensures(ResonatorBank::from_frequencies::<A>, (freqs, rate), bank),
        call_ensures(ResonatorBank::new::<A>, (configs, rate), other),
        configs@.len() == freqs@.len(),
        forall|i: int|
            0 <= i < freqs@.len() ==> {
                &&& (#[trigger] configs@[i]).freq == freqs@[i]
                &&& suggested_alpha::<A>(freqs@[i], rate, configs@[i].alpha)
                &&& configs@[i].beta == configs@[i].alpha
            },
    ensures
        bank@.count == 0,
        bank@.bins.len() == freqs@.len(),
        forall|i: int|
            0 <= i < freqs@.len() ==> {
                &&& (#[trigger] bank@.bins[i]).freq == freqs@[i]
                &&& suggested_alpha::<A>(freqs@[i], rate, bank@.bins[i].alpha)
                &&& bank@.bins[i].beta == bank@.bins[i].alpha
            },
        repeatable::<A>() ==> bank@ == other@,
{
    if repeatable::<A>() {
        from_frequencies_is_new::<A>(freqs@, rate, configs@, bank@, other@);
    }
}

// ---------------------------------------------------------------------------
// Readings
// ---------------------------------------------------------------------------

/// `p` is an outcome of the sum of the squares of both parts of `c`.
pub open spec fn sum_of_squares<A: Arithmetic>(c: Complex, p: Binary32) -> bool {
    exists|x: Binary32, y: Binary32|
        #![trigger sum::<A>(x, y, p)]
        product::<A>(c.re, c.re, x) && product::<A>(c.im, c.im, y) && sum::<A>(x, y, p)
}

/// The reading of a resonator is its smoothed output.
pub proof fn complex_is_the_smoothed_output(bank: &ResonatorBank, i: usize, c: Complex)
    requires
        i < bank@.bins.len(),
        call_ensures(ResonatorBank::complex, (bank, i), c),
    ensures
        c == bank@.bins[i as int].rr,
{
}

/// The power of a resonator is the sum of the squares of both parts of its
/// reading.
pub proof fn power_by_hand<A: Arithmetic>(bank: &ResonatorBank, i: usize, p: Binary32)
    requires
        i < bank@.bins.len(),
        call_ensures(ResonatorBank::power::<A>, (bank, i), p),
    ensures
        sum_of_squares::<A>(bank@.bins[i as int].rr, p),
{
    let c = bank@.bins[i as int].rr;
    let (x, y) = choose|x: Binary32, y: Binary32| #[trigger] power_sum::<A>(c, x, y, p);
    assert(sum::<A>(x, y, p));
}

/// The phase of a resonator is the angle of the point with the imaginary part of
/// its reading as ordinate and the real part as abscissa.
pub proof fn phase_by_hand<A: Arithmetic>(bank: &ResonatorBank, i: usize, p: Binary32)
    requires
        i < bank@.bins.len(),
        call_ensures(ResonatorBank::phase::<A>, (bank, i), p),
    ensures
        direction::<A>(bank@.bins[i as int].rr.im, bank@.bins[i as int].rr.re, p),
{
}

/// The magnitude of a resonator is the square root of the sum of the squares of
/// both parts of its reading.
pub proof fn magnitude_by_hand<A: Arithmetic>(bank: &ResonatorBank, i: usize, m: Binary32)
    requires
        i < bank@.bins.len(),
        call_ensures(ResonatorBank::magnitude::<A>, (bank, i), m),
    ensures
        exists|p: Binary32| #[trigger]
            sum_of_squares::<A>(bank@.bins[i as int].rr, p) && square_root::<A>(p, m),
{
    let c = bank@.bins[i as int].rr;
    let p = choose|p: Binary32| #[trigger] power_of::<A>(c, p) && square_root::<A>(p, m);
    let (x, y) = choose|x: Binary32, y: Binary32| #[trigger] power_sum::<A>(c, x, y, p);
    assert(sum::<A>(x, y, p));
    assert(sum_of_squares::<A>(c, p));
}

/// With repeatable arithmetic, the magnitude of a resonator is the square root
/// of its power.
pub proof fn magnitude_is_the_root_of_power<A: Arithmetic>(
    bank: &ResonatorBank,
    i: usize,
    p: Binary32,
    m: Binary32,
)
    requires
        repeatable::<A>(),
        i < bank@.bins.len(),
        call_ensures(ResonatorBank::power::<A>, (bank, i), p),
        call_ensures(ResonatorBank::magnitude::<A>, (bank, i), m),
    ensures
        square_root::<A>(p, m),
{
    let c = bank@.bins[i as int].rr;
    let q = choose|q: Binary32| #[trigger] power_of::<A>(c, q) && square_root::<A>(q, m);
    readings_are_repeatable::<A>(c, p, q);
}

/// With repeatable arithmetic, whoever squares both parts of a reading and adds
/// the squares has found its power, and whoever takes the square root of that
/// its magnitude.
pub proof fn readings_are_found_by_hand<A: Arithmetic>(
    bank: &ResonatorBank,
    i: usize,
    c: Complex,
    x: Binary32,
    y: Binary32,
    p: Binary32,
    m: Binary32,
    power: Binary32,
    magnitude: Binary32,
)
    requires
        repeatable::<A>(),
        i < bank@.bins.len(),
        call_ensures(ResonatorBank::complex, (bank, i), c),
        product::<A>(c.re, c.re, x),
        product::<A>(c.im, c.im, y),
        sum::<A>(x, y, p),
        square_root::<A>(p, m),
        call_ensures(ResonatorBank::power::<A>, (bank, i), power),
        call_ensures(ResonatorBank::magnitude::<A>, (bank, i), magnitude),
    ensures
        power == p,
        magnitude == m,
{
    assert(power_sum::<A>(c, x, y, p));
    readings_are_repeatable::<A>(c, power, p);
    magnitude_is_the_root_of_power::<A>(bank, i, power, magnitude);
}

/// Squares do not show the sign that `neg` turns.
pub open spec fn squares_hide<A: Arithmetic>(neg: spec_fn(Binary32) -> Binary32) -> bool {
    forall|x: Binary32, r: Binary32, s: Binary32| #[trigger]
        product::<A>(x, x, r) && #[trigger] product::<A>(neg(x), neg(x), s) ==> r == s
}

/// Where squares hide the sign, readings that differ in the signs of their parts
/// alone have the same power and the same magnitude.
pub proof fn signs_do_not_show<A: Arithmetic>(
    neg: spec_fn(Binary32) -> Binary32,
    bank: &ResonatorBank,
    i: usize,
    c: Complex,
    p: Binary32,
    m: Binary32,
    other: &ResonatorBank,
    j: usize,
    d: Complex,
    q: Binary32,
    o: Binary32,
)
    requires
        repeatable::<A>(),
        squares_hide::<A>(neg),
        i < bank@.bins.len(),
        j < other@.bins.len(),
        call_ensures(ResonatorBank::complex, (bank, i), c),
        call_ensures(ResonatorBank::power::<A>, (bank, i), p),
        call_ensures(ResonatorBank::magnitude::<A>, (bank, i), m),
        call_ensures(ResonatorBank::complex, (other, j), d),
        call_ensures(ResonatorBank::power::<A>, (other, j), q),
        call_ensures(ResonatorBank::magnitude::<A>, (other, j), o),
        d.re == c.re || d.re == neg(c.re),
        d.im == c.im || d.im == neg(c.im),
    ensures
        p == q,
        m == o,
{
    magnitude_is_the_root_of_power::<A>(bank, i, p, m);
    magnitude_is_the_root_of_power::<A>(other, j, q, o);
    let (x, y) = choose|x: Binary32, y: Binary32| #[trigger] power_sum::<A>(c, x, y, p);
    let (u, v) = choose|u: Binary32, v: Binary32| #[trigger] power_sum::<A>(d, u, v, q);
    assert(x == u);
    assert(y == v);
}

/// The angle of a point is that of the point scaled by `c`.
pub open spec fn directions_ignore<A: Arithmetic>(c: spec_fn(Binary32) -> Binary32) -> bool {
    forall|y: Binary32, x: Binary32, r: Binary32, s: Binary32| #[trigger]
        direction::<A>(y, x, r) && #[trigger] direction::<A>(c(y), c(x), s) ==> r == s
}

/// The phase does not depend on how loud a resonator is: where the angle of a
/// point is that of the scaled point, readings that differ by the scale alone
/// have the same phase.
pub proof fn phase_ignores_loudness<A: Arithmetic>(
    scale: spec_fn(Binary32) -> Binary32,
    bank: &ResonatorBank,
    i: usize,
    c: Complex,
    p: Binary32,
    other: &ResonatorBank,
    j: usize,
    d: Complex,
    q: Binary32,
)
    requires
        directions_ignore::<A>(scale),
        i < bank@.bins.len(),
        j < other@.bins.len(),
        call_ensures(ResonatorBank::complex, (bank, i), c),
        call_ensures(ResonatorBank::phase::<A>, (bank, i), p),
        call_ensures(ResonatorBank::complex, (other, j), d),
        call_ensures(ResonatorBank::phase::<A>, (other, j), q),
        d == c.scaled(scale),
    ensures
        p == q,
{
    assert(direction::<A>(c.im, c.re, p));
    assert(direction::<A>(scale(c.im), scale(c.re), q));
}

} // verus!

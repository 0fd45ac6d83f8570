//! What can be told of a bank in advance: what two runs have in common, and
//! what a bank is after any number of operations.
//!
//! Most of these laws ask for repeatable arithmetic, on which an operation on
//! equal operands has equal outcomes.

use crate::arithmetic::{
    cosine, lanes_agree, repeatable, sine, sine_keeps_sides, suggested_alpha, Arithmetic,
};
use crate::config::{paired_configs, ResonatorConfig};
use crate::laws::{
    alike_resonators_stay_alike, bin_step_is_unique, blocks_join, building_is_repeatable, chain,
    chain_link, frame_bounds, group_step_is_scalar, hops_are_one_block, one_by_one, processing_is_repeatable,
    reset_restores_the_tuned_bank, resonate_matches_streaming, rest_is_clear, sample_keeps_tuning,
    spectrograms_join, tuning_is_kept,
};
use crate::model::{
    bin_step, bins_step, built, built_from_frequencies, cell, frame_count, group_step, grouped,
    hops, magnitude_of, phase_of, phasor_angle, power_of, power_sum, processed, rotation, sample_step,
    spectrogram, tuned, AngleWork, BankState, Bin, Path,
};
use crate::number::{Binary32, Complex};
use vstd::prelude::*;

verus! {

// ---------------------------------------------------------------------------
// Construction
// ---------------------------------------------------------------------------

/// A phasor turns clockwise: at an angle of less than half a turn, the rotation
/// has a negative imaginary part.
pub proof fn rotation_is_clockwise<A: Arithmetic>(
    freq: Binary32,
    sample_rate: Binary32,
    t: AngleWork,
    w: Complex,
)
    requires
        repeatable::<A>(),
        sine_keeps_sides::<A>(),
        phasor_angle::<A>(freq, sample_rate, t),
        t.angle.is_clockwise(),
        rotation::<A>(freq, sample_rate, w),
    ensures
        w.im.is_negative_fraction(),
{
    let p = choose|p: AngleWork| #[trigger]
        phasor_angle::<A>(freq, sample_rate, p) && cosine::<A>(p.angle, w.re) && sine::<A>(
            p.angle,
            w.im,
        );
    assert(p == t);
}

/// The rotation of a resonator depends on its phasor angle alone: frequencies
/// and sample rates with equal angles rotate alike.
pub proof fn equal_angles_rotate_alike<A: Arithmetic>(
    freq_a: Binary32,
    rate_a: Binary32,
    s: AngleWork,
    a: Complex,
    freq_b: Binary32,
    rate_b: Binary32,
    t: AngleWork,
    b: Complex,
)
    requires
        repeatable::<A>(),
        phasor_angle::<A>(freq_a, rate_a, s),
        phasor_angle::<A>(freq_b, rate_b, t),
        s.angle == t.angle,
        rotation::<A>(freq_a, rate_a, a),
        rotation::<A>(freq_b, rate_b, b),
    ensures
        a == b,
{
    let p = choose|p: AngleWork| #[trigger]
        phasor_angle::<A>(freq_a, rate_a, p) && cosine::<A>(p.angle, a.re) && sine::<A>(
            p.angle,
            a.im,
        );
    let q = choose|q: AngleWork| #[trigger]
        phasor_angle::<A>(freq_b, rate_b, q) && cosine::<A>(q.angle, b.re) && sine::<A>(
            q.angle,
            b.im,
        );
    assert(p == s);
    assert(q == t);
}

/// Building from frequencies is building from configs: one per frequency, with
/// the weight of that frequency as both of its weights.
pub proof fn frequencies_build_like_configs<A: Arithmetic>(
    freqs: Seq<Binary32>,
    sample_rate: Binary32,
    bank: BankState,
)
    requires
        built_from_frequencies::<A>(freqs, sample_rate, bank),
    ensures
        built::<A>(
            paired_configs(freqs, bank.bins.map_values(|b: Bin| b.alpha)),
            sample_rate,
            bank,
        ),
{
    let configs = paired_configs(freqs, bank.bins.map_values(|b: Bin| b.alpha));
    assert forall|i: int| 0 <= i < configs.len() implies tuned::<A>(
        #[trigger] configs[i],
        sample_rate,
        bank.bins[i],
    ) by {
        let bin = bank.bins[i];
        assert(configs[i] == ResonatorConfig {
            freq: freqs[i],
            alpha: bin.alpha,
            beta: bin.alpha,
        });
    }
}

/// With repeatable arithmetic, the bank that is built from frequencies is the
/// bank that is built from the configs with the weights of those frequencies.
pub proof fn from_frequencies_is_new<A: Arithmetic>(
    freqs: Seq<Binary32>,
    sample_rate: Binary32,
    configs: Seq<ResonatorConfig>,
    a: BankState,
    b: BankState,
)
    requires
        repeatable::<A>(),
        built_from_frequencies::<A>(freqs, sample_rate, a),
        configs.len() == freqs.len(),
        forall|i: int|
            0 <= i < freqs.len() ==> {
                &&& (#[trigger] configs[i]).freq == freqs[i]
                &&& suggested_alpha::<A>(freqs[i], sample_rate, configs[i].alpha)
                &&& configs[i].beta == configs[i].alpha
            },
        built::<A>(configs, sample_rate, b),
    ensures
        a == b,
{
    let own = paired_configs(freqs, a.bins.map_values(|b: Bin| b.alpha));
    frequencies_build_like_configs::<A>(freqs, sample_rate, a);
    assert forall|i: int| 0 <= i < freqs.len() implies #[trigger] own[i] == configs[i] by {
        let bin = a.bins[i];
        assert(suggested_alpha::<A>(freqs[i], sample_rate, bin.alpha));
        assert(suggested_alpha::<A>(freqs[i], sample_rate, configs[i].alpha));
    }
    assert(own =~= configs);
    building_is_repeatable::<A>(configs, sample_rate, a, b);
}

// ---------------------------------------------------------------------------
// One sample
// ---------------------------------------------------------------------------

/// The core update reaches every resonator exactly once: resonator `k` takes
/// the step of the one group of four it belongs to, which lies inside the bank,
/// or else a step of its own; fewer than four are left over after the groups.
pub proof fn update_reaches_each_resonator_once<A: Arithmetic>(
    path: Path,
    pre: Seq<Bin>,
    sample: Binary32,
    post: Seq<Bin>,
    k: int,
    g: int,
)
    requires
        bins_step::<A>(path, pre, sample, post),
        0 <= k < pre.len(),
    ensures
        k < grouped(path, pre.len()) ==> {
            &&& 0 <= 4 * (k / 4) <= k < 4 * (k / 4) + 4 <= grouped(path, pre.len())
            &&& group_step::<A>(pre, k / 4, sample, post)
        },
        4 * g <= k < 4 * g + 4 ==> g == k / 4,
        grouped(path, pre.len()) <= k ==> bin_step::<A>(pre[k], sample, post[k]),
        grouped(path, pre.len()) <= pre.len(),
        path is Simd ==> pre.len() < grouped(path, pre.len()) + 4,
{
    if k < grouped(path, pre.len()) {
        assert(group_step::<A>(pre, k / 4, sample, post));
    } else {
        assert(bin_step::<A>(pre[k], sample, post[k]));
    }
}

/// The core update changes nothing in an empty bank.
pub proof fn update_keeps_the_empty_bank<A: Arithmetic>(
    path: Path,
    pre: Seq<Bin>,
    sample: Binary32,
    post: Seq<Bin>,
)
    requires
        bins_step::<A>(path, pre, sample, post),
        pre.len() == 0,
    ensures
        post == pre,
{
    assert(post =~= pre);
}

/// With repeatable arithmetic, one sample takes the resonators after the groups
/// where it takes them on the scalar path.
pub proof fn tail_steps_like_scalar<A: Arithmetic>(
    pre: Seq<Bin>,
    sample: Binary32,
    simd: Seq<Bin>,
    scalar: Seq<Bin>,
    k: int,
)
    requires
        repeatable::<A>(),
        bins_step::<A>(Path::Simd, pre, sample, simd),
        bins_step::<A>(Path::Scalar, pre, sample, scalar),
        grouped(Path::Simd, pre.len()) <= k < pre.len(),
    ensures
        simd[k] == scalar[k],
{
    assert(bin_step::<A>(pre[k], sample, simd[k]));
    assert(bin_step::<A>(pre[k], sample, scalar[k]));
    bin_step_is_unique::<A>(pre[k], sample, simd[k], scalar[k]);
}

/// One sample takes a grouped resonator where the scalar path takes it with `B`,
/// if the lanes of `A` agree with the numbers of `B`.
pub proof fn grouped_step_is_scalar<A: Arithmetic, B: Arithmetic>(
    pre: Seq<Bin>,
    sample: Binary32,
    simd: Seq<Bin>,
    scalar: Seq<Bin>,
    k: int,
)
    requires
        lanes_agree::<A, B>(),
        bins_step::<A>(Path::Simd, pre, sample, simd),
        bins_step::<B>(Path::Scalar, pre, sample, scalar),
        0 <= k < grouped(Path::Simd, pre.len()),
    ensures
        simd[k] == scalar[k],
{
    assert(pre[k].same_tuning(simd[k]));
    assert(group_step::<A>(pre, k / 4, sample, simd));
    assert(bin_step::<B>(pre[k], sample, scalar[k]));
    group_step_is_scalar::<A, B>(pre, k / 4, sample, simd, k, scalar[k]);
}

// ---------------------------------------------------------------------------
// Samples in a row
// ---------------------------------------------------------------------------

/// With repeatable arithmetic, a block and its samples one at a time lead to
/// the same bank, whatever stabilization boundaries they cross.
pub proof fn single_samples_match_the_block<A: Arithmetic>(
    path: Path,
    pre: BankState,
    samples: Seq<Binary32>,
    block: BankState,
    singles: Seq<BankState>,
)
    requires
        repeatable::<A>(),
        processed::<A>(path, pre, samples, block),
        chain::<A>(path, singles, samples),
        singles[0] == pre,
    ensures
        singles.last() == block,
{
    one_by_one::<A>(path, singles, samples);
    processing_is_repeatable::<A>(path, pre, samples, block, singles.last());
}

/// With repeatable arithmetic, it does not matter how samples are cut into
/// blocks: two blocks in a row lead to the bank that both in one lead to.
pub proof fn cuts_do_not_matter<A: Arithmetic>(
    path: Path,
    pre: BankState,
    first: Seq<Binary32>,
    mid: BankState,
    second: Seq<Binary32>,
    cut: BankState,
    whole: BankState,
)
    requires
        repeatable::<A>(),
        processed::<A>(path, pre, first, mid),
        processed::<A>(path, mid, second, cut),
        processed::<A>(path, pre, first + second, whole),
    ensures
        cut == whole,
{
    blocks_join::<A>(path, pre, first, mid, second, cut);
    processing_is_repeatable::<A>(path, pre, first + second, cut, whole);
}

/// Both paths count alike, and so stabilize after the same samples; with
/// repeatable arithmetic they take the resonators after the groups to the same
/// place.
pub proof fn paths_count_alike<A: Arithmetic>(
    pre: BankState,
    samples: Seq<Binary32>,
    simd: BankState,
    scalar: BankState,
    k: int,
)
    requires
        processed::<A>(Path::Simd, pre, samples, simd),
        processed::<A>(Path::Scalar, pre, samples, scalar),
    ensures
        simd.count == scalar.count,
        simd.count == pre.count + samples.len(),
        repeatable::<A>() && grouped(Path::Simd, pre.bins.len()) <= k < pre.bins.len()
            ==> simd.bins[k] == scalar.bins[k],
{
    tuning_is_kept::<A>(Path::Simd, pre, samples, simd);
    tuning_is_kept::<A>(Path::Scalar, pre, samples, scalar);
    if repeatable::<A>() && grouped(Path::Simd, pre.bins.len()) <= k < pre.bins.len() {
        alike_resonators_stay_alike::<A>(
            Path::Simd,
            pre,
            simd,
            k,
            Path::Scalar,
            pre,
            scalar,
            k,
            samples,
        );
    }
}

/// With repeatable arithmetic, both paths take a bank of fewer than four
/// resonators to the same bank.
pub proof fn small_banks_end_alike<A: Arithmetic>(
    pre: BankState,
    samples: Seq<Binary32>,
    simd: BankState,
    scalar: BankState,
)
    requires
        repeatable::<A>(),
        pre.bins.len() < 4,
        processed::<A>(Path::Simd, pre, samples, simd),
        processed::<A>(Path::Scalar, pre, samples, scalar),
    ensures
        simd == scalar,
{
    tuning_is_kept::<A>(Path::Simd, pre, samples, simd);
    tuning_is_kept::<A>(Path::Scalar, pre, samples, scalar);
    assert forall|k: int| 0 <= k < pre.bins.len() implies #[trigger] simd.bins[k]
        == scalar.bins[k] by {
        paths_count_alike::<A>(pre, samples, simd, scalar, k);
    }
    assert(simd =~= scalar);
}

/// With repeatable arithmetic, a resonator reads on the scalar path what it
/// reads in a bank built from its config alone, whatever the other configs are.
pub proof fn resonators_read_as_if_alone<A: Arithmetic>(
    configs: Seq<ResonatorConfig>,
    sample_rate: Binary32,
    k: int,
    samples: Seq<Binary32>,
    bank: BankState,
    bank_after: BankState,
    alone: BankState,
    alone_after: BankState,
)
    requires
        repeatable::<A>(),
        0 <= k < configs.len(),
        built::<A>(configs, sample_rate, bank),
        built::<A>(seq![configs[k]], sample_rate, alone),
        processed::<A>(Path::Scalar, bank, samples, bank_after),
        processed::<A>(Path::Scalar, alone, samples, alone_after),
    ensures
        bank_after.bins[k] == alone_after.bins[0],
{
    assert(tuned::<A>(configs[k], sample_rate, bank.bins[k]));
    assert(built::<A>(seq![configs[k]], sample_rate, bank.only(k)));
    building_is_repeatable::<A>(seq![configs[k]], sample_rate, bank.only(k), alone);
    assert(bank.only(k).bins[0] == bank.bins[k]);
    alike_resonators_stay_alike::<A>(
        Path::Scalar,
        bank,
        bank_after,
        k,
        Path::Scalar,
        alone,
        alone_after,
        0,
        samples,
    );
}

// ---------------------------------------------------------------------------
// Hops
// ---------------------------------------------------------------------------

/// With repeatable arithmetic, the cell of hop `f` and resonator `k` holds what
/// that resonator reads once the signal up to the end of that hop has been
/// processed as a block.
pub proof fn cells_read_the_end_of_their_hop<A: Arithmetic>(
    pre: BankState,
    signal: Seq<Binary32>,
    hop: int,
    states: Seq<BankState>,
    out: Seq<Complex>,
    f: int,
    k: int,
    block: BankState,
)
    requires
        repeatable::<A>(),
        0 < hop,
        hops::<A>(pre, signal, hop, states),
        spectrogram(states, pre.bins.len(), out),
        0 <= f < frame_count(signal, hop),
        0 <= k < pre.bins.len(),
        processed::<A>(Path::Simd, pre, signal.take((f + 1) * hop), block),
    ensures
        0 <= f * pre.bins.len() + k < out.len(),
        out[f * pre.bins.len() + k] == block.bins[k].rr,
{
    let n = pre.bins.len() as int;
    let rows = frame_count(signal, hop) as int;
    hops_are_one_block::<A>(pre, signal, hop, states, f + 1);
    processing_is_repeatable::<A>(
        Path::Simd,
        pre,
        signal.take((f + 1) * hop),
        states[f + 1],
        block,
    );
    assert(out[cell(n, f, k)] == states[f + 1].bins[k].rr);
    assert(0 <= f * n + k < rows * n) by (nonlinear_arith)
        requires
            0 <= f < rows,
            0 <= k < n,
    ;
}

/// With repeatable arithmetic, the hops leave the bank that their samples as
/// one block leave. Only those samples count, and none if the signal is shorter
/// than a hop.
pub proof fn hops_leave_what_a_block_leaves<A: Arithmetic>(
    pre: BankState,
    signal: Seq<Binary32>,
    hop: int,
    states: Seq<BankState>,
    block: BankState,
)
    requires
        repeatable::<A>(),
        0 < hop,
        hops::<A>(pre, signal, hop, states),
        processed::<A>(Path::Simd, pre, signal.take(frame_count(signal, hop) * hop), block),
    ensures
        states.last() == block,
        block.count == pre.count + frame_count(signal, hop) * hop,
        signal.len() < hop ==> block == pre,
{
    let n = frame_count(signal, hop) as int;
    frame_bounds(signal, hop, n);
    hops_are_one_block::<A>(pre, signal, hop, states, n);
    processing_is_repeatable::<A>(Path::Simd, pre, signal.take(n * hop), states[n], block);
    tuning_is_kept::<A>(Path::Simd, pre, signal.take(n * hop), block);
    if signal.len() < hop {
        assert(signal.len() as int / hop == 0) by (nonlinear_arith)
            requires
                0 <= signal.len() < hop,
        ;
        assert(n * hop == 0) by (nonlinear_arith)
            requires
                n == 0,
        ;
        assert(signal.take(n * hop).len() == 0);
    }
}

/// With repeatable arithmetic, a spectrogram taken in two parts is the one
/// taken at once, and leaves the same bank, if the first part is made of whole
/// hops.
pub proof fn parts_match_the_whole<A: Arithmetic>(
    pre: BankState,
    first: Seq<Binary32>,
    first_states: Seq<BankState>,
    first_out: Seq<Complex>,
    second: Seq<Binary32>,
    second_states: Seq<BankState>,
    second_out: Seq<Complex>,
    hop: int,
    states: Seq<BankState>,
    out: Seq<Complex>,
)
    requires
        repeatable::<A>(),
        0 < hop,
        first.len() as int % hop == 0,
        hops::<A>(pre, first, hop, first_states),
        spectrogram(first_states, pre.bins.len(), first_out),
        hops::<A>(first_states.last(), second, hop, second_states),
        spectrogram(second_states, pre.bins.len(), second_out),
        hops::<A>(pre, first + second, hop, states),
        spectrogram(states, pre.bins.len(), out),
    ensures
        out == first_out + second_out,
        states.last() == second_states.last(),
{
    spectrograms_join::<A>(
        pre,
        first,
        first_states,
        first_out,
        second,
        second_states,
        second_out,
        hop,
    );
    let joined = first_states + second_states.drop_first();
    resonate_matches_streaming::<A>(
        pre,
        first + second,
        hop,
        states,
        out,
        joined,
        first_out + second_out,
    );
    if second_states.len() == 1 {
        assert(joined =~= first_states);
        assert(second_states.last() == second_states[0]);
    }
}

// ---------------------------------------------------------------------------
// Readings
// ---------------------------------------------------------------------------

/// With repeatable arithmetic, a reading has one outcome: what the lists of
/// powers, magnitudes and phases hold for a resonator is what its single power,
/// magnitude and phase are.
pub proof fn readings_are_repeatable<A: Arithmetic>(c: Complex, listed: Binary32, single: Binary32)
    requires
        repeatable::<A>(),
    ensures
        power_of::<A>(c, listed) && power_of::<A>(c, single) ==> listed == single,
        magnitude_of::<A>(c, listed) && magnitude_of::<A>(c, single) ==> listed == single,
        phase_of::<A>(c, listed) && phase_of::<A>(c, single) ==> listed == single,
{
    assert forall|p: Binary32, q: Binary32| #[trigger]
        power_of::<A>(c, p) && #[trigger] power_of::<A>(c, q) implies p == q by {
        let (a, b) = choose|a: Binary32, b: Binary32| #[trigger] power_sum::<A>(c, a, b, p);
        let (d, e) = choose|d: Binary32, e: Binary32| #[trigger] power_sum::<A>(c, d, e, q);
        assert(a == d && b == e);
    }
}

// ---------------------------------------------------------------------------
// Any operations in a row
// ---------------------------------------------------------------------------

/// What can be done to a bank.
pub enum Operation {
    /// One sample.
    Sample { sample: Binary32 },
    /// A block of samples.
    Block { path: Path, samples: Seq<Binary32> },
    /// The whole hops of a signal.
    Hops { signal: Seq<Binary32>, hop: int },
    /// A reset.
    Reset,
}

/// The operation takes the bank `pre` to `post`.
pub open spec fn performed<A: Arithmetic>(op: Operation, pre: BankState, post: BankState) -> bool {
    match op {
        Operation::Sample { sample } => sample_step::<A>(Path::Simd, pre, sample, post),
        Operation::Block { path, samples } => processed::<A>(path, pre, samples, post),
        Operation::Hops { signal, hop } => processed::<A>(
            Path::Simd,
            pre,
            signal.take(frame_count(signal, hop) * hop),
            post,
        ),
        Operation::Reset => post == pre.at_rest(),
    }
}

/// The operations, in order, take the bank `pre` to `post`.
pub open spec fn ran<A: Arithmetic>(ops: Seq<Operation>, pre: BankState, post: BankState) -> bool
    decreases ops.len(),
{
    if ops.len() == 0 {
        post == pre
    } else {
        exists|mid: BankState|
            ran::<A>(ops.drop_last(), pre, mid) && #[trigger] performed::<A>(ops.last(), mid, post)
    }
}

/// No operation changes the tuning or the number of resonators.
proof fn operation_keeps_tuning<A: Arithmetic>(op: Operation, pre: BankState, post: BankState)
    requires
        performed::<A>(op, pre, post),
    ensures
        pre.same_tuning(post),
{
    match op {
        Operation::Sample { sample } => {
            sample_keeps_tuning::<A>(Path::Simd, pre, sample, post);
        },
        Operation::Block { path, samples } => {
            tuning_is_kept::<A>(path, pre, samples, post);
        },
        Operation::Hops { signal, hop } => {
            tuning_is_kept::<A>(
                Path::Simd,
                pre,
                signal.take(frame_count(signal, hop) * hop),
                post,
            );
        },
        Operation::Reset => {
            rest_is_clear(pre);
        },
    }
}

/// Whatever is done to a bank in whatever order, it holds the resonators that
/// it was built with, one per config and tuned as they were, and a reset takes
/// it back to what it was when it was built.
pub proof fn built_bank_is_kept<A: Arithmetic>(
    configs: Seq<ResonatorConfig>,
    sample_rate: Binary32,
    fresh: BankState,
    ops: Seq<Operation>,
    used: BankState,
)
    requires
        built::<A>(configs, sample_rate, fresh),
        ran::<A>(ops, fresh, used),
    ensures
        used.bins.len() == configs.len(),
        fresh.same_tuning(used),
        used.at_rest() == fresh,
    decreases ops.len(),
{
    if ops.len() > 0 {
        let mid = choose|mid: BankState|
            ran::<A>(ops.drop_last(), fresh, mid) && #[trigger] performed::<A>(
                ops.last(),
                mid,
                used,
            );
        built_bank_is_kept::<A>(configs, sample_rate, fresh, ops.drop_last(), mid);
        operation_keeps_tuning::<A>(ops.last(), mid, used);
        assert forall|k: int| 0 <= k < fresh.bins.len() implies #[trigger] fresh.bins[k].same_tuning(
            used.bins[k],
        ) by {
            assert(fresh.bins[k].same_tuning(mid.bins[k]));
            assert(mid.bins[k].same_tuning(used.bins[k]));
        }
    }
    reset_restores_the_tuned_bank::<A>(configs, sample_rate, fresh, used);
}

/// With repeatable arithmetic, equal banks stay equal under equal operations.
pub proof fn operations_are_repeatable<A: Arithmetic>(
    ops: Seq<Operation>,
    pre: BankState,
    a: BankState,
    b: BankState,
)
    requires
        repeatable::<A>(),
        ran::<A>(ops, pre, a),
        ran::<A>(ops, pre, b),
    ensures
        a == b,
    decreases ops.len(),
{
    if ops.len() > 0 {
        let shorter = ops.drop_last();
        let p = choose|mid: BankState|
            ran::<A>(shorter, pre, mid) && #[trigger] performed::<A>(ops.last(), mid, a);
        let q = choose|mid: BankState|
            ran::<A>(shorter, pre, mid) && #[trigger] performed::<A>(ops.last(), mid, b);
        operations_are_repeatable::<A>(shorter, pre, p, q);
        match ops.last() {
            Operation::Sample { sample } => {
                one_sample_is_a_block::<A>(p, sample, a);
                one_sample_is_a_block::<A>(p, sample, b);
                processing_is_repeatable::<A>(Path::Simd, p, seq![sample], a, b);
            },
            Operation::Block { path, samples } => {
                processing_is_repeatable::<A>(path, p, samples, a, b);
            },
            Operation::Hops { signal, hop } => {
                processing_is_repeatable::<A>(
                    Path::Simd,
                    p,
                    signal.take(frame_count(signal, hop) * hop),
                    a,
                    b,
                );
            },
            Operation::Reset => {},
        }
    }
}

/// One sample is a block of one.
proof fn one_sample_is_a_block<A: Arithmetic>(pre: BankState, sample: Binary32, post: BankState)
    requires
        sample_step::<A>(Path::Simd, pre, sample, post),
    ensures
        processed::<A>(Path::Simd, pre, seq![sample], post),
{
    let states = seq![pre, post];
    assert(chain_link::<A>(Path::Simd, states, seq![sample], 0));
    one_by_one::<A>(Path::Simd, states, seq![sample]);
}

} // verus!

//! What holds of a bank over several operations.

use crate::arithmetic::{
    cosine, lane_local, lanes_agree, repeatable, sine, Arithmetic,
};
use crate::config::ResonatorConfig;
use crate::model::{
    bin_stabilized, bin_step, bin_update, bin_update_x4, bins_stabilized, bins_step, built, cell,
    frame, frame_count, group, group_step, grouped, hop_step, hops, origin, phasor_angle,
    phasor_stabilized, processed, sample_step, settled, spectrogram, stabilization_due,
    stabilizations_agree, tuned, unit, AngleWork, BankState, Bin, BinWork, BinWorkX4, Path,
    StabilizeWork,
};
use crate::number::{one, Binary32, Complex, Lanes};
use vstd::prelude::*;

verus! {

/// Sample `i` takes `states[i]` to `states[i + 1]`.
pub open spec fn chain_link<A: Arithmetic>(
    path: Path,
    states: Seq<BankState>,
    samples: Seq<Binary32>,
    i: int,
) -> bool {
    sample_step::<A>(path, states[i], samples[i], states[i + 1])
}

/// `states` holds a bank, then that bank after each of the samples.
pub open spec fn chain<A: Arithmetic>(
    path: Path,
    states: Seq<BankState>,
    samples: Seq<Binary32>,
) -> bool {
    &&& states.len() == samples.len() + 1
    &&& forall|i: int|
        0 <= i < samples.len() ==> #[trigger] chain_link::<A>(path, states, samples, i)
}

/// A bank that has processed the first `n` samples and takes one more step has
/// processed the first `n + 1`.
pub proof fn one_more_sample<A: Arithmetic>(
    path: Path,
    pre: BankState,
    samples: Seq<Binary32>,
    n: int,
    mid: BankState,
    post: BankState,
)
    requires
        0 <= n < samples.len(),
        processed::<A>(path, pre, samples.take(n), mid),
        sample_step::<A>(path, mid, samples[n], post),
    ensures
        processed::<A>(path, pre, samples.take(n + 1), post),
{
    let longer = samples.take(n + 1);
    assert(longer.drop_last() =~= samples.take(n));
    assert(sample_step::<A>(path, mid, longer.last(), post));
}

/// A sample leaves the tuning of every resonator as it was.
pub proof fn sample_keeps_tuning<A: Arithmetic>(
    path: Path,
    pre: BankState,
    sample: Binary32,
    post: BankState,
)
    requires
        sample_step::<A>(path, pre, sample, post),
    ensures
        pre.same_tuning(post),
{
    let mid = choose|mid: Seq<Bin>| #[trigger]
        bins_step::<A>(path, pre.bins, sample, mid) && settled::<A>(mid, post.count, post.bins);
    assert forall|k: int| 0 <= k < pre.bins.len() implies #[trigger] pre.bins[k].same_tuning(
        post.bins[k],
    ) by {
        assert(pre.bins[k].same_tuning(mid[k]));
        if stabilization_due(post.count) {
            assert(bin_stabilized::<A>(mid[k], post.bins[k]));
        }
    }
}

/// Samples leave the tuning of every resonator as it was, and each of them
/// counts once.
pub proof fn tuning_is_kept<A: Arithmetic>(
    path: Path,
    pre: BankState,
    samples: Seq<Binary32>,
    post: BankState,
)
    requires
        processed::<A>(path, pre, samples, post),
    ensures
        pre.same_tuning(post),
        post.count == pre.count + samples.len(),
    decreases samples.len(),
{
    if samples.len() > 0 {
        let mid = choose|mid: BankState|
            processed::<A>(path, pre, samples.drop_last(), mid) && #[trigger] sample_step::<A>(
                path,
                mid,
                samples.last(),
                post,
            );
        tuning_is_kept::<A>(path, pre, samples.drop_last(), mid);
        sample_keeps_tuning::<A>(path, mid, samples.last(), post);
        assert forall|k: int| 0 <= k < pre.bins.len() implies #[trigger] pre.bins[k].same_tuning(
            post.bins[k],
        ) by {
            assert(pre.bins[k].same_tuning(mid.bins[k]));
            assert(mid.bins[k].same_tuning(post.bins[k]));
        }
    }
}

/// Two blocks one after the other lead where their concatenation leads.
pub proof fn blocks_join<A: Arithmetic>(
    path: Path,
    pre: BankState,
    first: Seq<Binary32>,
    mid: BankState,
    second: Seq<Binary32>,
    post: BankState,
)
    requires
        processed::<A>(path, pre, first, mid),
        processed::<A>(path, mid, second, post),
    ensures
        processed::<A>(path, pre, first + second, post),
    decreases second.len(),
{
    let whole = first + second;
    if second.len() == 0 {
        assert(whole =~= first);
    } else {
        let before = choose|before: BankState|
            processed::<A>(path, mid, second.drop_last(), before) && #[trigger] sample_step::<A>(
                path,
                before,
                second.last(),
                post,
            );
        blocks_join::<A>(path, pre, first, mid, second.drop_last(), before);
        assert(whole.drop_last() =~= first + second.drop_last());
        assert(sample_step::<A>(path, before, whole.last(), post));
    }
}

/// Wherever a block leads, it leads through a bank that its first `n` samples
/// lead to and from which the others lead on: a block may be cut anywhere.
pub proof fn blocks_split<A: Arithmetic>(
    path: Path,
    pre: BankState,
    samples: Seq<Binary32>,
    n: int,
    post: BankState,
)
    requires
        0 <= n <= samples.len(),
        processed::<A>(path, pre, samples, post),
    ensures
        exists|mid: BankState| #[trigger]
            processed::<A>(path, pre, samples.take(n), mid) && processed::<A>(
                path,
                mid,
                samples.skip(n),
                post,
            ),
    decreases samples.len(),
{
    if n == samples.len() {
        assert(samples.take(n) =~= samples);
        assert(samples.skip(n).len() == 0);
        assert(processed::<A>(path, post, samples.skip(n), post));
    } else {
        let shorter = samples.drop_last();
        let before = choose|before: BankState|
            processed::<A>(path, pre, shorter, before) && #[trigger] sample_step::<A>(
                path,
                before,
                samples.last(),
                post,
            );
        blocks_split::<A>(path, pre, shorter, n, before);
        let mid = choose|mid: BankState| #[trigger]
            processed::<A>(path, pre, shorter.take(n), mid) && processed::<A>(
                path,
                mid,
                shorter.skip(n),
                before,
            );
        assert(shorter.take(n) =~= samples.take(n));
        assert(samples.skip(n).drop_last() =~= shorter.skip(n));
        assert(sample_step::<A>(path, before, samples.skip(n).last(), post));
    }
}

/// The whole hops of a signal, one after the other, are one block: the leading
/// samples of the signal, without those after the last whole hop.
pub proof fn hops_are_one_block<A: Arithmetic>(
    pre: BankState,
    signal: Seq<Binary32>,
    hop: int,
    states: Seq<BankState>,
    f: int,
)
    requires
        0 < hop,
        hops::<A>(pre, signal, hop, states),
        0 <= f <= frame_count(signal, hop),
    ensures
        f * hop <= signal.len(),
        processed::<A>(Path::Simd, pre, signal.take(f * hop), states[f]),
    decreases f,
{
    frame_bounds(signal, hop, f);
    if f == 0 {
        assert(f * hop == 0) by (nonlinear_arith)
            requires
                f == 0,
        ;
        assert(signal.take(f * hop).len() == 0);
    } else {
        hops_are_one_block::<A>(pre, signal, hop, states, f - 1);
        assert(hop_step::<A>(signal, hop, states, f - 1));
        assert((f - 1) * hop + hop == f * hop) by (nonlinear_arith);
        blocks_join::<A>(
            Path::Simd,
            pre,
            signal.take((f - 1) * hop),
            states[f - 1],
            frame(signal, hop, f - 1),
            states[f],
        );
        assert(signal.take(f * hop) =~= signal.take((f - 1) * hop) + frame(signal, hop, f - 1));
    }
}

/// The first `f` whole hops lie inside the signal.
pub proof fn frame_bounds(signal: Seq<Binary32>, hop: int, f: int)
    requires
        0 < hop,
        0 <= f <= frame_count(signal, hop),
    ensures
        0 <= f * hop <= frame_count(signal, hop) * hop <= signal.len(),
        0 < f ==> 0 <= (f - 1) * hop,
{
    let n = signal.len() as int;
    assert(0 <= n / hop && n / hop * hop <= n) by (nonlinear_arith)
        requires
            0 < hop,
            0 <= n,
    ;
    let c = n / hop;
    assert(0 <= f * hop <= c * hop) by (nonlinear_arith)
        requires
            0 < hop,
            0 <= f <= c,
    ;
    assert(0 < f ==> 0 <= (f - 1) * hop) by (nonlinear_arith)
        requires
            0 < hop,
    ;
}

/// A chain of single samples is a block: feeding the samples one at a time
/// leads to a bank that feeding them as a block leads to.
pub proof fn one_by_one<A: Arithmetic>(
    path: Path,
    states: Seq<BankState>,
    samples: Seq<Binary32>,
)
    requires
        chain::<A>(path, states, samples),
    ensures
        processed::<A>(path, states[0], samples, states.last()),
    decreases samples.len(),
{
    if samples.len() > 0 {
        let n = samples.len() - 1;
        let shorter = states.drop_last();
        assert forall|i: int| 0 <= i < n implies #[trigger] chain_link::<A>(
            path,
            shorter,
            samples.drop_last(),
            i,
        ) by {
            assert(chain_link::<A>(path, states, samples, i));
        }
        one_by_one::<A>(path, shorter, samples.drop_last());
        assert(chain_link::<A>(path, states, samples, n));
        assert(sample_step::<A>(path, shorter.last(), samples.last(), states.last()));
    }
}

/// A block is a chain of single samples: wherever a block leads, feeding its
/// samples one at a time may lead too.
pub proof fn block_is_a_chain<A: Arithmetic>(
    path: Path,
    pre: BankState,
    samples: Seq<Binary32>,
    post: BankState,
)
    requires
        processed::<A>(path, pre, samples, post),
    ensures
        exists|states: Seq<BankState>| #[trigger]
            chain::<A>(path, states, samples) && states[0] == pre && states.last() == post,
    decreases samples.len(),
{
    if samples.len() == 0 {
        let states = seq![pre];
        assert(chain::<A>(path, states, samples));
    } else {
        let mid = choose|mid: BankState|
            processed::<A>(path, pre, samples.drop_last(), mid) && #[trigger] sample_step::<A>(
                path,
                mid,
                samples.last(),
                post,
            );
        block_is_a_chain::<A>(path, pre, samples.drop_last(), mid);
        let shorter = choose|states: Seq<BankState>| #[trigger]
            chain::<A>(path, states, samples.drop_last()) && states[0] == pre && states.last()
                == mid;
        let states = shorter.push(post);
        assert forall|i: int| 0 <= i < samples.len() implies #[trigger] chain_link::<A>(
            path,
            states,
            samples,
            i,
        ) by {
            if i < samples.len() - 1 {
                assert(chain_link::<A>(path, shorter, samples.drop_last(), i));
            }
        }
        assert(chain::<A>(path, states, samples));
    }
}

/// Banks that are tuned alike are the same bank once reset.
pub proof fn rest_depends_on_tuning(a: BankState, b: BankState)
    requires
        a.same_tuning(b),
    ensures
        a.at_rest() == b.at_rest(),
{
    assert forall|k: int| 0 <= k < a.bins.len() implies #[trigger] a.at_rest().bins[k]
        == b.at_rest().bins[k] by {
        assert(a.bins[k].same_tuning(b.bins[k]));
    }
    assert(a.at_rest() =~= b.at_rest());
}

/// A bank that was reset has seen no sample, holds unit phasors and reads zero
/// everywhere, is tuned as before, and is not changed by another reset.
pub proof fn rest_is_clear(bank: BankState)
    ensures
        bank.at_rest().count == 0,
        bank.same_tuning(bank.at_rest()),
        forall|k: int|
            0 <= k < bank.bins.len() ==> {
                &&& (#[trigger] bank.at_rest().bins[k]).z == unit()
                &&& bank.at_rest().bins[k].r == origin()
                &&& bank.at_rest().bins[k].rr == origin()
            },
        bank.at_rest().at_rest() == bank.at_rest(),
{
    assert(bank.at_rest().at_rest() =~= bank.at_rest());
}

/// A bank resets to the bank that was built, if it is still tuned as that bank
/// is; no operation changes the tuning.
pub proof fn reset_restores_the_tuned_bank<A: Arithmetic>(
    configs: Seq<ResonatorConfig>,
    sample_rate: Binary32,
    fresh: BankState,
    used: BankState,
)
    requires
        built::<A>(configs, sample_rate, fresh),
        fresh.same_tuning(used),
    ensures
        used.at_rest() == fresh,
{
    rest_depends_on_tuning(fresh, used);
    assert forall|k: int| 0 <= k < fresh.bins.len() implies #[trigger] fresh.bins[k]
        == fresh.at_rest().bins[k] by {
        assert(tuned::<A>(configs[k], sample_rate, fresh.bins[k]));
    }
    assert(fresh.at_rest() =~= fresh);
}

/// A reset takes a bank back to what it was when it was built, whatever it has
/// processed since.
pub proof fn reset_restores_the_built_bank<A: Arithmetic>(
    path: Path,
    configs: Seq<ResonatorConfig>,
    sample_rate: Binary32,
    fresh: BankState,
    samples: Seq<Binary32>,
    used: BankState,
)
    requires
        built::<A>(configs, sample_rate, fresh),
        processed::<A>(path, fresh, samples, used),
    ensures
        used.at_rest() == fresh,
{
    tuning_is_kept::<A>(path, fresh, samples, used);
    reset_restores_the_tuned_bank::<A>(configs, sample_rate, fresh, used);
}

/// With repeatable arithmetic, one sample has one outcome for a resonator.
pub proof fn bin_step_is_unique<A: Arithmetic>(pre: Bin, sample: Binary32, a: Bin, b: Bin)
    requires
        repeatable::<A>(),
        bin_step::<A>(pre, sample, a),
        bin_step::<A>(pre, sample, b),
    ensures
        a == b,
{
    let s = choose|t: BinWork| #[trigger] bin_update::<A>(pre, sample, t, a);
    let t = choose|t: BinWork| #[trigger] bin_update::<A>(pre, sample, t, b);
    assert(s == t);
}

/// With repeatable arithmetic, one sample has one outcome for a group.
proof fn group_step_is_unique<A: Arithmetic>(
    pre: Seq<Bin>,
    g: int,
    sample: Binary32,
    a: Seq<Bin>,
    b: Seq<Bin>,
)
    requires
        repeatable::<A>(),
        group_step::<A>(pre, g, sample, a),
        group_step::<A>(pre, g, sample, b),
    ensures
        forall|k: int|
            4 * g <= k < 4 * g + 4 ==> {
                &&& (#[trigger] a[k]).z == b[k].z
                &&& a[k].r == b[k].r
                &&& a[k].rr == b[k].rr
            },
{
    let p = group(pre, g);
    let s = choose|t: BinWorkX4| #[trigger] bin_update_x4::<A>(p, sample, t, group(a, g));
    let t = choose|t: BinWorkX4| #[trigger] bin_update_x4::<A>(p, sample, t, group(b, g));
    assert(s == t);
    assert(group(a, g).z_re == group(b, g).z_re);
    assert(group(a, g).z_im == group(b, g).z_im);
    assert(group(a, g).r_re == group(b, g).r_re);
    assert(group(a, g).r_im == group(b, g).r_im);
    assert(group(a, g).rr_re == group(b, g).rr_re);
    assert(group(a, g).rr_im == group(b, g).rr_im);
}

/// With repeatable arithmetic, one sample has one outcome before
/// stabilization.
proof fn bins_step_is_unique<A: Arithmetic>(
    path: Path,
    pre: Seq<Bin>,
    sample: Binary32,
    a: Seq<Bin>,
    b: Seq<Bin>,
)
    requires
        repeatable::<A>(),
        bins_step::<A>(path, pre, sample, a),
        bins_step::<A>(path, pre, sample, b),
    ensures
        a == b,
{
    assert forall|k: int| 0 <= k < pre.len() implies #[trigger] a[k] == b[k] by {
        assert(pre[k].same_tuning(a[k]));
        assert(pre[k].same_tuning(b[k]));
        if k < grouped(path, pre.len()) {
            let g = k / 4;
            assert(group_step::<A>(pre, g, sample, a));
            assert(group_step::<A>(pre, g, sample, b));
            group_step_is_unique::<A>(pre, g, sample, a, b);
        } else {
            bin_step_is_unique::<A>(pre[k], sample, a[k], b[k]);
        }
    }
    assert(a =~= b);
}

/// With repeatable arithmetic, stabilization has one outcome.
proof fn stabilization_is_unique<A: Arithmetic>(pre: Seq<Bin>, a: Seq<Bin>, b: Seq<Bin>)
    requires
        repeatable::<A>(),
        bins_stabilized::<A>(pre, a),
        bins_stabilized::<A>(pre, b),
    ensures
        a == b,
{
    assert forall|k: int| 0 <= k < pre.len() implies #[trigger] a[k] == b[k] by {
        assert(bin_stabilized::<A>(pre[k], a[k]));
        assert(bin_stabilized::<A>(pre[k], b[k]));
        let s = choose|t: StabilizeWork| #[trigger]
            phasor_stabilized::<A>(pre[k].z, t, a[k].z);
        let t = choose|t: StabilizeWork| #[trigger]
            phasor_stabilized::<A>(pre[k].z, t, b[k].z);
        assert(s == t);
    }
    assert(a =~= b);
}

/// With repeatable arithmetic a block has one outcome: banks that start alike
/// and are fed the same samples end alike, however the samples are cut into
/// blocks.
pub proof fn processing_is_repeatable<A: Arithmetic>(
    path: Path,
    pre: BankState,
    samples: Seq<Binary32>,
    a: BankState,
    b: BankState,
)
    requires
        repeatable::<A>(),
        processed::<A>(path, pre, samples, a),
        processed::<A>(path, pre, samples, b),
    ensures
        a == b,
    decreases samples.len(),
{
    if samples.len() > 0 {
        let shorter = samples.drop_last();
        let sample = samples.last();
        let p = choose|mid: BankState|
            processed::<A>(path, pre, shorter, mid) && #[trigger] sample_step::<A>(
                path,
                mid,
                sample,
                a,
            );
        let q = choose|mid: BankState|
            processed::<A>(path, pre, shorter, mid) && #[trigger] sample_step::<A>(
                path,
                mid,
                sample,
                b,
            );
        processing_is_repeatable::<A>(path, pre, shorter, p, q);
        let s = choose|mid: Seq<Bin>| #[trigger]
            bins_step::<A>(path, p.bins, sample, mid) && settled::<A>(mid, a.count, a.bins);
        let t = choose|mid: Seq<Bin>| #[trigger]
            bins_step::<A>(path, p.bins, sample, mid) && settled::<A>(mid, b.count, b.bins);
        bins_step_is_unique::<A>(path, p.bins, sample, s, t);
        if stabilization_due(a.count) {
            stabilization_is_unique::<A>(s, a.bins, b.bins);
        }
    }
}

/// With repeatable arithmetic, the same configs and sample rate build the same
/// bank.
pub proof fn building_is_repeatable<A: Arithmetic>(
    configs: Seq<ResonatorConfig>,
    sample_rate: Binary32,
    a: BankState,
    b: BankState,
)
    requires
        repeatable::<A>(),
        built::<A>(configs, sample_rate, a),
        built::<A>(configs, sample_rate, b),
    ensures
        a == b,
{
    assert forall|k: int| 0 <= k < configs.len() implies #[trigger] a.bins[k] == b.bins[k] by {
        let freq = configs[k].freq;
        let s = choose|t: AngleWork| #[trigger]
            phasor_angle::<A>(freq, sample_rate, t) && cosine::<A>(t.angle, a.bins[k].w.re)
                && sine::<A>(t.angle, a.bins[k].w.im);
        let t = choose|t: AngleWork| #[trigger]
            phasor_angle::<A>(freq, sample_rate, t) && cosine::<A>(t.angle, b.bins[k].w.re)
                && sine::<A>(t.angle, b.bins[k].w.im);
        assert(tuned::<A>(configs[k], sample_rate, a.bins[k]));
        assert(tuned::<A>(configs[k], sample_rate, b.bins[k]));
        assert(s == t);
    }
    assert(a =~= b);
}

/// Batch and streaming agree: with repeatable arithmetic, the spectrogram of a
/// signal is the same, reading for reading, as what one gets by feeding each
/// whole hop as a block and reading every resonator after it; and both leave
/// the same bank behind.
pub proof fn resonate_matches_streaming<A: Arithmetic>(
    pre: BankState,
    signal: Seq<Binary32>,
    hop: int,
    batch_states: Seq<BankState>,
    batch: Seq<Complex>,
    states: Seq<BankState>,
    streamed: Seq<Complex>,
)
    requires
        repeatable::<A>(),
        0 < hop,
        hops::<A>(pre, signal, hop, batch_states),
        spectrogram(batch_states, pre.bins.len(), batch),
        hops::<A>(pre, signal, hop, states),
        spectrogram(states, pre.bins.len(), streamed),
    ensures
        batch_states == states,
        batch == streamed,
{
    assert forall|f: int| 0 <= f < states.len() implies #[trigger] batch_states[f] == states[f] by {
        hops_are_one_block::<A>(pre, signal, hop, batch_states, f);
        hops_are_one_block::<A>(pre, signal, hop, states, f);
        processing_is_repeatable::<A>(
            Path::Simd,
            pre,
            signal.take(f * hop),
            batch_states[f],
            states[f],
        );
    }
    assert(batch_states =~= states);
    let bins = pre.bins.len() as int;
    assert forall|i: int| 0 <= i < batch.len() implies #[trigger] batch[i] == streamed[i] by {
        cell_of_index(bins, states.len() - 1, i);
        assert(i == cell(bins, i / bins, i % bins));
    }
    assert(batch =~= streamed);
}

/// Every index of a spectrogram is one of its cells.
proof fn cell_of_index(bins: int, rows: int, i: int)
    requires
        0 <= bins,
        0 <= rows,
        0 <= i < rows * bins,
    ensures
        0 < bins,
        0 <= i / bins < rows,
        0 <= i % bins < bins,
        i == cell(bins, i / bins, i % bins),
{
    assert(0 < bins) by (nonlinear_arith)
        requires
            0 <= bins,
            0 <= rows,
            0 <= i < rows * bins,
    ;
    assert(0 <= i / bins < rows && 0 <= i % bins < bins && i == i / bins * bins + i % bins)
        by (nonlinear_arith)
        requires
            0 < bins,
            0 <= rows,
            0 <= i < rows * bins,
    ;
}

/// A signal shorter than one hop yields no reading and leaves the bank as it
/// was.
pub proof fn short_signals_do_nothing<A: Arithmetic>(
    pre: BankState,
    signal: Seq<Binary32>,
    hop: int,
    states: Seq<BankState>,
    out: Seq<Complex>,
)
    requires
        signal.len() < hop,
        hops::<A>(pre, signal, hop, states),
        spectrogram(states, pre.bins.len(), out),
    ensures
        out.len() == 0,
        states.last() == pre,
{
    assert(signal.len() as int / hop == 0) by (nonlinear_arith)
        requires
            0 <= signal.len() < hop,
    ;
    assert(0 * pre.bins.len() == 0);
}

/// The samples after the last whole hop are dropped: without them the signal
/// leads through the same banks.
pub proof fn trailing_samples_are_dropped<A: Arithmetic>(
    pre: BankState,
    signal: Seq<Binary32>,
    hop: int,
    states: Seq<BankState>,
)
    requires
        0 < hop,
    ensures
        hops::<A>(pre, signal, hop, states) <==> hops::<A>(
            pre,
            signal.take(frame_count(signal, hop) * hop),
            hop,
            states,
        ),
{
    let n = frame_count(signal, hop) as int;
    frame_bounds(signal, hop, n);
    let kept = signal.take(n * hop);
    assert(n * hop / hop == n) by (nonlinear_arith)
        requires
            0 < hop,
            0 <= n,
    ;
    assert(frame_count(kept, hop) == n);
    assert forall|f: int| 0 <= f < n implies frame(signal, hop, f) == #[trigger] frame(
        kept,
        hop,
        f,
    ) by {
        frame_bounds(signal, hop, f + 1);
        assert((f + 1) * hop == f * hop + hop) by (nonlinear_arith);
        assert(frame(signal, hop, f) =~= frame(kept, hop, f));
    }
    assert forall|f: int| 0 <= f < n implies hop_step::<A>(signal, hop, states, f) == #[trigger] hop_step::<A>(
        kept,
        hop,
        states,
        f,
    ) by {
        assert(frame(signal, hop, f) == frame(kept, hop, f));
    }
    if hops::<A>(pre, kept, hop, states) {
        assert forall|f: int| 0 <= f < n implies #[trigger] hop_step::<A>(signal, hop, states, f) by {
            assert(hop_step::<A>(kept, hop, states, f));
        }
    }
}

/// Lane `i` of the intermediate results of a group.
spec fn lane_work(t: BinWorkX4, i: int) -> BinWork {
    BinWork {
        one_m_alpha: t.one_m_alpha.lane(i),
        one_m_beta: t.one_m_beta.lane(i),
        alpha_sample: t.alpha_sample.lane(i),
        alpha_sample_z_re: t.alpha_sample_z_re.lane(i),
        alpha_sample_z_im: t.alpha_sample_z_im.lane(i),
        beta_r_re: t.beta_r_re.lane(i),
        beta_r_im: t.beta_r_im.lane(i),
        z_re_w_re: t.z_re_w_re.lane(i),
        z_im_w_im: t.z_im_w_im.lane(i),
        z_re_w_im: t.z_re_w_im.lane(i),
        z_im_w_re: t.z_im_w_re.lane(i),
    }
}

/// A group of `A` takes each of its resonators where a step of its own with `B`
/// takes it, if the lanes of `A` agree with the numbers of `B`.
pub proof fn group_step_is_scalar<A: Arithmetic, B: Arithmetic>(
    pre: Seq<Bin>,
    g: int,
    sample: Binary32,
    post: Seq<Bin>,
    k: int,
    alone: Bin,
)
    requires
        lanes_agree::<A, B>(),
        group_step::<A>(pre, g, sample, post),
        4 * g <= k < 4 * g + 4,
        pre[k].same_tuning(post[k]),
        bin_step::<B>(pre[k], sample, alone),
    ensures
        post[k] == alone,
{
    let p = group(pre, g);
    let q = group(post, g);
    let t = choose|t: BinWorkX4| #[trigger] bin_update_x4::<A>(p, sample, t, q);
    let w = choose|w: BinWork| #[trigger] bin_update::<B>(pre[k], sample, w, alone);
    let i = k - 4 * g;
    assert(Lanes::all(one()).lane(i) == one());
    assert(Lanes::all(sample).lane(i) == sample);
    assert(p.alpha.lane(i) == pre[k].alpha);
    assert(p.beta.lane(i) == pre[k].beta);
    assert(p.w_re.lane(i) == pre[k].w.re);
    assert(p.w_im.lane(i) == pre[k].w.im);
    assert(p.z_re.lane(i) == pre[k].z.re);
    assert(p.z_im.lane(i) == pre[k].z.im);
    assert(p.r_re.lane(i) == pre[k].r.re);
    assert(p.r_im.lane(i) == pre[k].r.im);
    assert(p.rr_re.lane(i) == pre[k].rr.re);
    assert(p.rr_im.lane(i) == pre[k].rr.im);
    assert(q.r_re.lane(i) == post[k].r.re);
    assert(q.r_im.lane(i) == post[k].r.im);
    assert(q.rr_re.lane(i) == post[k].rr.re);
    assert(q.rr_im.lane(i) == post[k].rr.im);
    assert(q.z_re.lane(i) == post[k].z.re);
    assert(q.z_im.lane(i) == post[k].z.im);
    assert(lane_work(t, i) == w);
}

/// Where both paths update the resonators alike, they process alike.
proof fn paths_agree<A: Arithmetic>(
    from: Path,
    to: Path,
    pre: BankState,
    samples: Seq<Binary32>,
    post: BankState,
)
    requires
        processed::<A>(from, pre, samples, post),
        forall|a: Seq<Bin>, sample: Binary32, b: Seq<Bin>|
            a.len() == pre.bins.len() && #[trigger] bins_step::<A>(from, a, sample, b)
                ==> bins_step::<A>(to, a, sample, b),
    ensures
        processed::<A>(to, pre, samples, post),
    decreases samples.len(),
{
    if samples.len() > 0 {
        let sample = samples.last();
        let mid = choose|mid: BankState|
            processed::<A>(from, pre, samples.drop_last(), mid) && #[trigger] sample_step::<A>(
                from,
                mid,
                sample,
                post,
            );
        paths_agree::<A>(from, to, pre, samples.drop_last(), mid);
        tuning_is_kept::<A>(from, pre, samples.drop_last(), mid);
        let bins = choose|bins: Seq<Bin>| #[trigger]
            bins_step::<A>(from, mid.bins, sample, bins) && settled::<A>(
                bins,
                post.count,
                post.bins,
            );
        assert(bins_step::<A>(to, mid.bins, sample, bins));
        assert(sample_step::<A>(to, mid, sample, post));
    }
}

/// In a bank of fewer than four resonators both paths are one.
pub proof fn small_banks_are_scalar<A: Arithmetic>(
    pre: BankState,
    samples: Seq<Binary32>,
    post: BankState,
)
    requires
        pre.bins.len() < 4,
    ensures
        processed::<A>(Path::Simd, pre, samples, post) <==> processed::<A>(
            Path::Scalar,
            pre,
            samples,
            post,
        ),
{
    if processed::<A>(Path::Simd, pre, samples, post) {
        paths_agree::<A>(Path::Simd, Path::Scalar, pre, samples, post);
    }
    if processed::<A>(Path::Scalar, pre, samples, post) {
        paths_agree::<A>(Path::Scalar, Path::Simd, pre, samples, post);
    }
}

/// What one step does to resonator `k` of a bank is a step of a bank that
/// holds it alone, if it is updated on its own.
proof fn step_alone<A: Arithmetic>(
    path: Path,
    pre: BankState,
    sample: Binary32,
    mid: Seq<Bin>,
    post: BankState,
    k: int,
)
    requires
        post.count == pre.count + 1,
        bins_step::<A>(path, pre.bins, sample, mid),
        settled::<A>(mid, post.count, post.bins),
        0 <= k < pre.bins.len(),
        bin_step::<A>(pre.bins[k], sample, mid[k]),
    ensures
        sample_step::<A>(Path::Scalar, pre.only(k), sample, post.only(k)),
{
    let alone = seq![mid[k]];
    assert(bins_step::<A>(Path::Scalar, pre.only(k).bins, sample, alone));
    if stabilization_due(post.count) {
        assert(bin_stabilized::<A>(mid[k], post.bins[k]));
    } else {
        assert(post.only(k).bins =~= alone);
    }
    assert(settled::<A>(alone, post.count, post.only(k).bins));
}

/// The resonators are independent: what a resonator that is updated on its own
/// does in a bank is what it does in a bank that holds nothing else. On the
/// scalar path that is every resonator, on the other those after the groups.
pub proof fn resonators_are_independent<A: Arithmetic>(
    path: Path,
    pre: BankState,
    samples: Seq<Binary32>,
    post: BankState,
    k: int,
)
    requires
        processed::<A>(path, pre, samples, post),
        grouped(path, pre.bins.len()) <= k < pre.bins.len(),
    ensures
        processed::<A>(Path::Scalar, pre.only(k), samples, post.only(k)),
    decreases samples.len(),
{
    if samples.len() > 0 {
        let sample = samples.last();
        let mid = choose|mid: BankState|
            processed::<A>(path, pre, samples.drop_last(), mid) && #[trigger] sample_step::<A>(
                path,
                mid,
                sample,
                post,
            );
        resonators_are_independent::<A>(path, pre, samples.drop_last(), mid, k);
        tuning_is_kept::<A>(path, pre, samples.drop_last(), mid);
        let bins = choose|bins: Seq<Bin>| #[trigger]
            bins_step::<A>(path, mid.bins, sample, bins) && settled::<A>(
                bins,
                post.count,
                post.bins,
            );
        assert(bin_step::<A>(mid.bins[k], sample, bins[k]));
        step_alone::<A>(path, mid, sample, bins, post, k);
    }
}

/// The resonators in groups of four match the scalar path: if the lanes of `A`
/// agree with the numbers of `B`, and both stabilize alike, a resonator that is
/// updated in a group with `A` ends where it ends on the scalar path with `B`,
/// in whatever banks the two start alike and wherever they stand there. `B` need
/// not be `A`: where the multiply-add of `A` rounds twice on lanes and once on
/// numbers, `B` is the arithmetic whose multiply-add on numbers rounds twice.
pub proof fn grouped_resonators_match_scalar<A: Arithmetic, B: Arithmetic>(
    pre_a: BankState,
    simd: BankState,
    k: int,
    pre_b: BankState,
    scalar: BankState,
    l: int,
    samples: Seq<Binary32>,
)
    requires
        lanes_agree::<A, B>(),
        stabilizations_agree::<A, B>(),
        processed::<A>(Path::Simd, pre_a, samples, simd),
        processed::<B>(Path::Scalar, pre_b, samples, scalar),
        pre_a.count == pre_b.count,
        0 <= k < grouped(Path::Simd, pre_a.bins.len()),
        0 <= l < pre_b.bins.len(),
        pre_a.bins[k] == pre_b.bins[l],
    ensures
        simd.bins[k] == scalar.bins[l],
    decreases samples.len(),
{
    if samples.len() > 0 {
        let shorter = samples.drop_last();
        let sample = samples.last();
        let a = choose|mid: BankState|
            processed::<A>(Path::Simd, pre_a, shorter, mid) && #[trigger] sample_step::<A>(
                Path::Simd,
                mid,
                sample,
                simd,
            );
        let b = choose|mid: BankState|
            processed::<B>(Path::Scalar, pre_b, shorter, mid) && #[trigger] sample_step::<B>(
                Path::Scalar,
                mid,
                sample,
                scalar,
            );
        grouped_resonators_match_scalar::<A, B>(pre_a, a, k, pre_b, b, l, shorter);
        tuning_is_kept::<A>(Path::Simd, pre_a, shorter, a);
        tuning_is_kept::<B>(Path::Scalar, pre_b, shorter, b);
        let s = choose|mid: Seq<Bin>| #[trigger]
            bins_step::<A>(Path::Simd, a.bins, sample, mid) && settled::<A>(
                mid,
                simd.count,
                simd.bins,
            );
        let t = choose|mid: Seq<Bin>| #[trigger]
            bins_step::<B>(Path::Scalar, b.bins, sample, mid) && settled::<B>(
                mid,
                scalar.count,
                scalar.bins,
            );
        assert(a.bins[k].same_tuning(s[k]));
        assert(group_step::<A>(a.bins, k / 4, sample, s));
        assert(bin_step::<B>(b.bins[l], sample, t[l]));
        group_step_is_scalar::<A, B>(a.bins, k / 4, sample, s, k, t[l]);
        if stabilization_due(simd.count) {
            assert(bin_stabilized::<A>(s[k], simd.bins[k]));
            assert(bin_stabilized::<B>(t[l], scalar.bins[l]));
            let x = choose|w: StabilizeWork| #[trigger]
                phasor_stabilized::<A>(s[k].z, w, simd.bins[k].z);
            let y = choose|w: StabilizeWork| #[trigger]
                phasor_stabilized::<B>(t[l].z, w, scalar.bins[l].z);
            assert(phasor_stabilized::<A>(s[k].z, x, simd.bins[k].z));
            assert(phasor_stabilized::<B>(s[k].z, y, scalar.bins[l].z));
        }
    }
}

/// With repeatable arithmetic whose lanes agree with its numbers, updating four
/// resonators at a time leads to the bank that updating them one at a time
/// leads to.
pub proof fn simd_is_scalar<A: Arithmetic>(
    pre: BankState,
    samples: Seq<Binary32>,
    simd: BankState,
    scalar: BankState,
)
    requires
        repeatable::<A>(),
        lanes_agree::<A, A>(),
        processed::<A>(Path::Simd, pre, samples, simd),
        processed::<A>(Path::Scalar, pre, samples, scalar),
    ensures
        simd == scalar,
{
    tuning_is_kept::<A>(Path::Simd, pre, samples, simd);
    tuning_is_kept::<A>(Path::Scalar, pre, samples, scalar);
    repeatable_stabilization_agrees::<A>();
    assert forall|k: int| 0 <= k < pre.bins.len() implies #[trigger] simd.bins[k]
        == scalar.bins[k] by {
        if k < grouped(Path::Simd, pre.bins.len()) {
            grouped_resonators_match_scalar::<A, A>(pre, simd, k, pre, scalar, k, samples);
        } else {
            alike_resonators_stay_alike::<A>(
                Path::Simd,
                pre,
                simd,
                k,
                Path::Scalar,
                pre,
                scalar,
                k,
                samples,
            );
        }
    }
    assert(simd =~= scalar);
}

/// Repeatable arithmetic stabilizes like itself.
proof fn repeatable_stabilization_agrees<A: Arithmetic>()
    requires
        repeatable::<A>(),
    ensures
        stabilizations_agree::<A, A>(),
{
    assert forall|pre: Complex, s: StabilizeWork, a: Complex, t: StabilizeWork, b: Complex|
        #[trigger] phasor_stabilized::<A>(pre, s, a) && #[trigger] phasor_stabilized::<A>(
            pre,
            t,
            b,
        ) implies a == b by {
        assert(s == t);
    }
}

/// With lane-local arithmetic, resonators that are alike before a sample are
/// alike after it, whatever groups and lanes they stand in.
proof fn alike_lanes_stay_alike<A: Arithmetic>(
    pre_a: Seq<Bin>,
    post_a: Seq<Bin>,
    k: int,
    pre_b: Seq<Bin>,
    post_b: Seq<Bin>,
    l: int,
    sample: Binary32,
)
    requires
        lane_local::<A>(),
        group_step::<A>(pre_a, k / 4, sample, post_a),
        group_step::<A>(pre_b, l / 4, sample, post_b),
        pre_a[k] == pre_b[l],
        pre_a[k].same_tuning(post_a[k]),
        pre_b[l].same_tuning(post_b[l]),
    ensures
        post_a[k] == post_b[l],
{
    let pa = group(pre_a, k / 4);
    let qa = group(post_a, k / 4);
    let pb = group(pre_b, l / 4);
    let qb = group(post_b, l / 4);
    let s = choose|t: BinWorkX4| #[trigger] bin_update_x4::<A>(pa, sample, t, qa);
    let t = choose|t: BinWorkX4| #[trigger] bin_update_x4::<A>(pb, sample, t, qb);
    let i = k - 4 * (k / 4);
    let j = l - 4 * (l / 4);
    assert(lane_work(s, i) == lane_work(t, j));
    assert(qa.r_re.lane(i) == qb.r_re.lane(j));
    assert(qa.r_im.lane(i) == qb.r_im.lane(j));
    assert(qa.rr_re.lane(i) == qb.rr_re.lane(j));
    assert(qa.rr_im.lane(i) == qb.rr_im.lane(j));
    assert(qa.z_re.lane(i) == qb.z_re.lane(j));
    assert(qa.z_im.lane(i) == qb.z_im.lane(j));
}

/// Resonators do not disturb each other: with repeatable arithmetic, which is
/// lane-local too if the resonators stand in groups, two resonators that start alike and hear the same samples end
/// alike, whatever banks they stand in, wherever they stand there and whichever
/// path each bank takes, as long as both are updated in groups of four or both
/// one at a time.
pub proof fn alike_resonators_stay_alike<A: Arithmetic>(
    path_a: Path,
    pre_a: BankState,
    post_a: BankState,
    k: int,
    path_b: Path,
    pre_b: BankState,
    post_b: BankState,
    l: int,
    samples: Seq<Binary32>,
)
    requires
        repeatable::<A>(),
        k < grouped(path_a, pre_a.bins.len()) ==> lane_local::<A>(),
        processed::<A>(path_a, pre_a, samples, post_a),
        processed::<A>(path_b, pre_b, samples, post_b),
        pre_a.count == pre_b.count,
        0 <= k < pre_a.bins.len(),
        0 <= l < pre_b.bins.len(),
        pre_a.bins[k] == pre_b.bins[l],
        k < grouped(path_a, pre_a.bins.len()) <==> l < grouped(path_b, pre_b.bins.len()),
    ensures
        post_a.bins[k] == post_b.bins[l],
    decreases samples.len(),
{
    if samples.len() > 0 {
        let shorter = samples.drop_last();
        let sample = samples.last();
        let a = choose|mid: BankState|
            processed::<A>(path_a, pre_a, shorter, mid) && #[trigger] sample_step::<A>(
                path_a,
                mid,
                sample,
                post_a,
            );
        let b = choose|mid: BankState|
            processed::<A>(path_b, pre_b, shorter, mid) && #[trigger] sample_step::<A>(
                path_b,
                mid,
                sample,
                post_b,
            );
        alike_resonators_stay_alike::<A>(
            path_a,
            pre_a,
            a,
            k,
            path_b,
            pre_b,
            b,
            l,
            shorter,
        );
        tuning_is_kept::<A>(path_a, pre_a, shorter, a);
        tuning_is_kept::<A>(path_b, pre_b, shorter, b);
        let s = choose|mid: Seq<Bin>| #[trigger]
            bins_step::<A>(path_a, a.bins, sample, mid) && settled::<A>(
                mid,
                post_a.count,
                post_a.bins,
            );
        let t = choose|mid: Seq<Bin>| #[trigger]
            bins_step::<A>(path_b, b.bins, sample, mid) && settled::<A>(
                mid,
                post_b.count,
                post_b.bins,
            );
        assert(a.bins[k].same_tuning(s[k]));
        assert(b.bins[l].same_tuning(t[l]));
        if k < grouped(path_a, a.bins.len()) {
            assert(group_step::<A>(a.bins, k / 4, sample, s));
            assert(group_step::<A>(b.bins, l / 4, sample, t));
            alike_lanes_stay_alike::<A>(a.bins, s, k, b.bins, t, l, sample);
        } else {
            bin_step_is_unique::<A>(a.bins[k], sample, s[k], t[l]);
        }
        if stabilization_due(post_a.count) {
            assert(bin_stabilized::<A>(s[k], post_a.bins[k]));
            assert(bin_stabilized::<A>(t[l], post_b.bins[l]));
            let x = choose|w: StabilizeWork| #[trigger]
                phasor_stabilized::<A>(s[k].z, w, post_a.bins[k].z);
            let y = choose|w: StabilizeWork| #[trigger]
                phasor_stabilized::<A>(t[l].z, w, post_b.bins[l].z);
            assert(x == y);
        }
    }
}

/// A spectrogram may be taken in parts: where the first signal is made of
/// whole hops, going on with the second one leads through the same banks, and
/// to the same readings, as both signals in one go.
pub proof fn spectrograms_join<A: Arithmetic>(
    pre: BankState,
    first: Seq<Binary32>,
    first_states: Seq<BankState>,
    first_out: Seq<Complex>,
    second: Seq<Binary32>,
    second_states: Seq<BankState>,
    second_out: Seq<Complex>,
    hop: int,
)
    requires
        0 < hop,
        first.len() as int % hop == 0,
        hops::<A>(pre, first, hop, first_states),
        spectrogram(first_states, pre.bins.len(), first_out),
        hops::<A>(first_states.last(), second, hop, second_states),
        spectrogram(second_states, pre.bins.len(), second_out),
    ensures
        hops::<A>(pre, first + second, hop, first_states + second_states.drop_first()),
        spectrogram(
            first_states + second_states.drop_first(),
            pre.bins.len(),
            first_out + second_out,
        ),
{
    let whole = first + second;
    let states = first_states + second_states.drop_first();
    let out = first_out + second_out;
    let bins = pre.bins.len() as int;
    let a = frame_count(first, hop) as int;
    let b = frame_count(second, hop) as int;
    let n = first.len() as int;
    let m = second.len() as int;
    assert(n / hop * hop == n) by (nonlinear_arith)
        requires
            0 < hop,
            n % hop == 0,
    ;
    assert((a * hop + m) / hop == a + m / hop) by (nonlinear_arith)
        requires
            0 < hop,
    ;
    assert(frame_count(whole, hop) == a + b);
    assert forall|f: int| 0 <= f < a + b implies #[trigger] hop_step::<A>(whole, hop, states, f) by {
        if f < a {
            assert(hop_step::<A>(first, hop, first_states, f));
            frame_bounds(first, hop, f + 1);
            assert((f + 1) * hop == f * hop + hop) by (nonlinear_arith);
            assert(frame(whole, hop, f) =~= frame(first, hop, f));
            assert(states[f + 1] == first_states[f + 1]);
        } else {
            let g = f - a;
            assert(hop_step::<A>(second, hop, second_states, g));
            frame_bounds(second, hop, g + 1);
            assert((g + 1) * hop == g * hop + hop) by (nonlinear_arith);
            assert(f * hop == a * hop + g * hop) by (nonlinear_arith)
                requires
                    f == a + g,
            ;
            assert(frame(whole, hop, f) =~= frame(second, hop, g));
            assert(states[f] == second_states[g]);
            assert(states[f + 1] == second_states[g + 1]);
        }
    }
    assert((a + b) * bins == a * bins + b * bins) by (nonlinear_arith);
    assert forall|f: int, k: int| 0 <= f < a + b && 0 <= k < bins implies out[#[trigger] cell(
        bins,
        f,
        k,
    )] == states[f + 1].bins[k].rr by {
        if f < a {
            assert(0 <= f * bins + k < a * bins) by (nonlinear_arith)
                requires
                    0 <= f < a,
                    0 <= k < bins,
            ;
            assert(first_out[cell(bins, f, k)] == first_states[f + 1].bins[k].rr);
        } else {
            let g = f - a;
            assert(f * bins + k == a * bins + (g * bins + k)) by (nonlinear_arith)
                requires
                    f == a + g,
            ;
            assert(0 <= g * bins + k < b * bins) by (nonlinear_arith)
                requires
                    0 <= g < b,
                    0 <= k < bins,
            ;
            assert(second_out[cell(bins, g, k)] == second_states[g + 1].bins[k].rr);
        }
    }
}

} // verus!

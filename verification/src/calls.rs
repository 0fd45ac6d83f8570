//! How the calls of a bank relate to one another.
//!
//! These laws speak of what the calls are given and what they return or leave
//! behind, and of nothing in between.

use crate::arithmetic::{lanes_agree, repeatable, suggested_alpha, Arithmetic};
use crate::bank::ResonatorBank;
use crate::config::{pair_configs, ResonatorConfig};
use crate::dynamics::heuristic_alphas;
use crate::hand::{averages_keep, averages_keep_lanes, settled_outputs_stay};
use crate::laws::{processing_is_repeatable, simd_is_scalar};
use crate::model::{frame_count, hops, processed, sample_step, spectrogram, BankState, Path};
use crate::number::{Binary32, Complex};
use crate::outcomes::{
    cells_read_the_end_of_their_hop, cuts_do_not_matter, hops_leave_what_a_block_leaves,
    readings_are_repeatable,
};
use vstd::prelude::*;

verus! {

// ---------------------------------------------------------------------------
// Readings
// ---------------------------------------------------------------------------

/// The number of resonators, the frequency of each of them and the list of all
/// frequencies go together and are those that the bank is tuned to.
pub proof fn frequencies_are_listed(
    bank: &ResonatorBank,
    i: usize,
    n: usize,
    freq: Binary32,
    freqs: Vec<Binary32>,
)
    requires
        i < bank@.bins.len(),
        call_ensures(ResonatorBank::len, (bank,), n),
        call_ensures(ResonatorBank::freq, (bank, i), freq),
        call_ensures(ResonatorBank::frequencies, (bank,), freqs),
    ensures
        n == bank@.bins.len(),
        freqs@.len() == n,
        freqs@[i as int] == freq,
        freq == bank@.bins[i as int].freq,
{
}

/// With repeatable arithmetic, the list of powers holds for each resonator what
/// reading it alone returns.
pub proof fn powers_are_listed<A: Arithmetic>(
    bank: &ResonatorBank,
    i: usize,
    power: Binary32,
    powers: Vec<Binary32>,
)
    requires
        repeatable::<A>(),
        i < bank@.bins.len(),
        call_ensures(ResonatorBank::power::<A>, (bank, i), power),
        call_ensures(ResonatorBank::powers::<A>, (bank,), powers),
    ensures
        powers@.len() == bank@.bins.len(),
        powers@[i as int] == power,
{
    readings_are_repeatable::<A>(bank@.bins[i as int].rr, powers@[i as int], power);
}

/// With repeatable arithmetic, the list of magnitudes holds for each resonator what
/// reading it alone returns.
pub proof fn magnitudes_are_listed<A: Arithmetic>(
    bank: &ResonatorBank,
    i: usize,
    magnitude: Binary32,
    magnitudes: Vec<Binary32>,
)
    requires
        repeatable::<A>(),
        i < bank@.bins.len(),
        call_ensures(ResonatorBank::magnitude::<A>, (bank, i), magnitude),
        call_ensures(ResonatorBank::magnitudes::<A>, (bank,), magnitudes),
    ensures
        magnitudes@.len() == bank@.bins.len(),
        magnitudes@[i as int] == magnitude,
{
    readings_are_repeatable::<A>(bank@.bins[i as int].rr, magnitudes@[i as int], magnitude);
}

/// With repeatable arithmetic, the list of phases holds for each resonator what
/// reading it alone returns.
pub proof fn phases_are_listed<A: Arithmetic>(
    bank: &ResonatorBank,
    i: usize,
    phase: Binary32,
    phases: Vec<Binary32>,
)
    requires
        repeatable::<A>(),
        i < bank@.bins.len(),
        call_ensures(ResonatorBank::phase::<A>, (bank, i), phase),
        call_ensures(ResonatorBank::phases::<A>, (bank,), phases),
    ensures
        phases@.len() == bank@.bins.len(),
        phases@[i as int] == phase,
{
    readings_are_repeatable::<A>(bank@.bins[i as int].rr, phases@[i as int], phase);
}

// ---------------------------------------------------------------------------
// Construction and reset
// ---------------------------------------------------------------------------

/// Numbers, complex numbers and configs hold what they are given.
pub proof fn values_hold_what_they_are_given(
    bits: u32,
    x: Binary32,
    re: Binary32,
    im: Binary32,
    c: Complex,
    freq: Binary32,
    alpha: Binary32,
    beta: Binary32,
    config: ResonatorConfig,
)
    requires
        call_ensures(Binary32::from_bits, (bits,), x),
        call_ensures(Complex::new, (re, im), c),
        call_ensures(ResonatorConfig::new, (freq, alpha, beta), config),
    ensures
        x.bits == bits,
        c.re == re && c.im == im,
        config.freq == freq && config.alpha == alpha && config.beta == beta,
{
}

/// Frequencies and weights are paired in order, as far as both go, and the
/// weight serves twice.
pub proof fn pairs_are_in_order(
    freqs: &[Binary32],
    alphas: &[Binary32],
    configs: Vec<ResonatorConfig>,
    k: int,
)
    requires
        call_ensures(pair_configs, (freqs, alphas), configs),
    ensures
        configs@.len() <= freqs@.len(),
        configs@.len() <= alphas@.len(),
        configs@.len() == freqs@.len() || configs@.len() == alphas@.len(),
        0 <= k < configs@.len() ==> configs@[k].freq == freqs@[k] && configs@[k].alpha == alphas@[k]
            && configs@[k].beta == alphas@[k],
{
}

/// The weights for frequencies are those that the arithmetic suggests for each
/// of them, in order.
pub proof fn weights_are_in_order<A: Arithmetic>(
    freqs: &[Binary32],
    rate: Binary32,
    alphas: Vec<Binary32>,
    k: int,
)
    requires
        call_ensures(heuristic_alphas::<A>, (freqs, rate), alphas),
    ensures
        alphas@.len() == freqs@.len(),
        0 <= k < freqs@.len() ==> suggested_alpha::<A>(freqs@[k], rate, alphas@[k]),
{
}

/// A reset keeps the resonators and what tunes them, sets every phasor to one
/// and every output to zero, and forgets the samples.
pub proof fn reset_clears(k: int)
    ensures
        forall|bank: &mut ResonatorBank| #[trigger]
            call_ensures(ResonatorBank::reset, (bank,), ()) ==> {
                let (pre, post) = ((*bank)@, (*final(bank))@);
                &&& post.count == 0
                &&& post.bins.len() == pre.bins.len()
                &&& 0 <= k < pre.bins.len() ==> {
                    let (a, b) = (pre.bins[k], post.bins[k]);
                    &&& b.freq == a.freq && b.alpha == a.alpha && b.beta == a.beta && b.w == a.w
                    &&& b.z.re.bits == 0x3f80_0000 && b.z.im.bits == 0
                    &&& b.r.re.bits == 0 && b.r.im.bits == 0
                    &&& b.rr.re.bits == 0 && b.rr.im.bits == 0
                }
            },
{
}

// ---------------------------------------------------------------------------
// Blocks
// ---------------------------------------------------------------------------

/// Every sample counts once, on either path, and no resonator comes or goes.
pub proof fn samples_are_counted<A: Arithmetic>(sample: Binary32, samples: &[Binary32])
    ensures
        forall|bank: &mut ResonatorBank|
            #![trigger call_ensures(ResonatorBank::process_sample::<A>, (bank, sample), ())]
            call_ensures(ResonatorBank::process_sample::<A>, (bank, sample), ()) ==> {
                &&& (*final(bank))@.count == (*bank)@.count + 1
                &&& (*final(bank))@.bins.len() == (*bank)@.bins.len()
            },
        forall|bank: &mut ResonatorBank|
            #![trigger call_ensures(ResonatorBank::process_samples::<A>, (bank, samples), ())]
            call_ensures(ResonatorBank::process_samples::<A>, (bank, samples), ()) ==> {
                &&& (*final(bank))@.count == (*bank)@.count + samples@.len()
                &&& (*final(bank))@.bins.len() == (*bank)@.bins.len()
            },
        forall|bank: &mut ResonatorBank|
            #![trigger call_ensures(ResonatorBank::process_samples_scalar::<A>, (bank, samples), ())]
            call_ensures(ResonatorBank::process_samples_scalar::<A>, (bank, samples), ()) ==> {
                &&& (*final(bank))@.count == (*bank)@.count + samples@.len()
                &&& (*final(bank))@.bins.len() == (*bank)@.bins.len()
            },
{
}

/// An empty block changes nothing.
pub proof fn empty_blocks_do_nothing<A: Arithmetic>(samples: &[Binary32])
    requires
        samples@.len() == 0,
    ensures
        forall|bank: &mut ResonatorBank|
            #![trigger call_ensures(ResonatorBank::process_samples::<A>, (bank, samples), ())]
            call_ensures(ResonatorBank::process_samples::<A>, (bank, samples), ()) ==> (*final(bank))@ == (*bank)@,
        forall|bank: &mut ResonatorBank|
            #![trigger call_ensures(ResonatorBank::process_samples_scalar::<A>, (bank, samples), ())]
            call_ensures(ResonatorBank::process_samples_scalar::<A>, (bank, samples), ())
                ==> (*final(bank))@ == (*bank)@,
{
}

/// With repeatable arithmetic, a block of one sample leaves what that sample
/// alone leaves.
pub proof fn block_of_one_is_a_sample<A: Arithmetic>(sample: Binary32, samples: &[Binary32])
    requires
        repeatable::<A>(),
        samples@ == seq![sample],
    ensures
        forall|a: &mut ResonatorBank, b: &mut ResonatorBank|
            #![trigger call_ensures(ResonatorBank::process_sample::<A>, (a, sample), ()), call_ensures(ResonatorBank::process_samples::<A>, (b, samples), ())]
            call_ensures(ResonatorBank::process_sample::<A>, (a, sample), ()) && call_ensures(
                ResonatorBank::process_samples::<A>,
                (b, samples),
                (),
            ) && (*a)@ == (*b)@ ==> (*final(a))@ == (*final(b))@,
{
    assert forall|a: &mut ResonatorBank, b: &mut ResonatorBank|
        #![trigger call_ensures(ResonatorBank::process_sample::<A>, (a, sample), ()), call_ensures(ResonatorBank::process_samples::<A>, (b, samples), ())]
        call_ensures(ResonatorBank::process_sample::<A>, (a, sample), ()) && call_ensures(
            ResonatorBank::process_samples::<A>,
            (b, samples),
            (),
        ) && (*a)@ == (*b)@ implies (*final(a))@ == (*final(b))@ by {
        let pre = (*a)@;
        assert(samples@.drop_last().len() == 0);
        assert(processed::<A>(Path::Simd, pre, samples@.drop_last(), pre));
        assert(sample_step::<A>(Path::Simd, pre, samples@.last(), (*final(a))@));
        assert(processed::<A>(Path::Simd, pre, samples@, (*final(a))@));
        processing_is_repeatable::<A>(Path::Simd, pre, samples@, (*final(a))@, (*final(b))@);
    }
}

/// With repeatable arithmetic, two blocks one after the other leave what they
/// leave as one block, wherever the cut is.
pub proof fn blocks_may_be_cut<A: Arithmetic>(
    first: &[Binary32],
    second: &[Binary32],
    whole: &[Binary32],
)
    requires
        repeatable::<A>(),
        whole@ == first@ + second@,
    ensures
        forall|a: &mut ResonatorBank, b: &mut ResonatorBank, c: &mut ResonatorBank|
            #![trigger call_ensures(ResonatorBank::process_samples::<A>, (a, first), ()), call_ensures(ResonatorBank::process_samples::<A>, (b, second), ()), call_ensures(ResonatorBank::process_samples::<A>, (c, whole), ())]
            call_ensures(ResonatorBank::process_samples::<A>, (a, first), ()) && call_ensures(
                ResonatorBank::process_samples::<A>,
                (b, second),
                (),
            ) && call_ensures(ResonatorBank::process_samples::<A>, (c, whole), ()) && (*b)@
                == (*final(a))@ && (*c)@ == (*a)@ ==> (*final(b))@ == (*final(c))@,
        forall|a: &mut ResonatorBank, b: &mut ResonatorBank, c: &mut ResonatorBank|
            #![trigger call_ensures(ResonatorBank::process_samples_scalar::<A>, (a, first), ()), call_ensures(ResonatorBank::process_samples_scalar::<A>, (b, second), ()), call_ensures(ResonatorBank::process_samples_scalar::<A>, (c, whole), ())]
            call_ensures(ResonatorBank::process_samples_scalar::<A>, (a, first), ())
                && call_ensures(ResonatorBank::process_samples_scalar::<A>, (b, second), ())
                && call_ensures(ResonatorBank::process_samples_scalar::<A>, (c, whole), ())
                && (*b)@ == (*final(a))@ && (*c)@ == (*a)@ ==> (*final(b))@ == (*final(c))@,
{
    assert forall|a: &mut ResonatorBank, b: &mut ResonatorBank, c: &mut ResonatorBank|
        #![trigger call_ensures(ResonatorBank::process_samples::<A>, (a, first), ()), call_ensures(ResonatorBank::process_samples::<A>, (b, second), ()), call_ensures(ResonatorBank::process_samples::<A>, (c, whole), ())]
        call_ensures(ResonatorBank::process_samples::<A>, (a, first), ()) && call_ensures(
            ResonatorBank::process_samples::<A>,
            (b, second),
            (),
        ) && call_ensures(ResonatorBank::process_samples::<A>, (c, whole), ()) && (*b)@ == (*final(a))@ && (*c)@ == (*a)@ implies (*final(b))@ == (*final(c))@ by {
        cuts_do_not_matter::<A>(
            Path::Simd,
            (*a)@,
            first@,
            (*b)@,
            second@,
            (*final(b))@,
            (*final(c))@,
        );
    }
    assert forall|a: &mut ResonatorBank, b: &mut ResonatorBank, c: &mut ResonatorBank|
        #![trigger call_ensures(ResonatorBank::process_samples_scalar::<A>, (a, first), ()), call_ensures(ResonatorBank::process_samples_scalar::<A>, (b, second), ()), call_ensures(ResonatorBank::process_samples_scalar::<A>, (c, whole), ())]
        call_ensures(ResonatorBank::process_samples_scalar::<A>, (a, first), ()) && call_ensures(
            ResonatorBank::process_samples_scalar::<A>,
            (b, second),
            (),
        ) && call_ensures(ResonatorBank::process_samples_scalar::<A>, (c, whole), ()) && (*b)@
            == (*final(a))@ && (*c)@ == (*a)@ implies (*final(b))@ == (*final(c))@ by {
        cuts_do_not_matter::<A>(
            Path::Scalar,
            (*a)@,
            first@,
            (*b)@,
            second@,
            (*final(b))@,
            (*final(c))@,
        );
    }
}

/// With repeatable arithmetic whose lanes agree with its numbers, both paths
/// leave the same bank.
pub proof fn both_paths_leave_the_same<A: Arithmetic>(samples: &[Binary32])
    requires
        repeatable::<A>(),
        lanes_agree::<A, A>(),
    ensures
        forall|a: &mut ResonatorBank, b: &mut ResonatorBank|
            #![trigger call_ensures(ResonatorBank::process_samples::<A>, (a, samples), ()), call_ensures(ResonatorBank::process_samples_scalar::<A>, (b, samples), ())]
            call_ensures(ResonatorBank::process_samples::<A>, (a, samples), ()) && call_ensures(
                ResonatorBank::process_samples_scalar::<A>,
                (b, samples),
                (),
            ) && (*a)@ == (*b)@ ==> (*final(a))@ == (*final(b))@,
{
    assert forall|a: &mut ResonatorBank, b: &mut ResonatorBank|
        #![trigger call_ensures(ResonatorBank::process_samples::<A>, (a, samples), ()), call_ensures(ResonatorBank::process_samples_scalar::<A>, (b, samples), ())]
        call_ensures(ResonatorBank::process_samples::<A>, (a, samples), ()) && call_ensures(
            ResonatorBank::process_samples_scalar::<A>,
            (b, samples),
            (),
        ) && (*a)@ == (*b)@ implies (*final(a))@ == (*final(b))@ by {
        simd_is_scalar::<A>((*a)@, samples@, (*final(a))@, (*final(b))@);
    }
}

/// Where an average of a number with itself is that number, the reading of a
/// resonator that has caught up with the accumulated output stays as it is.
pub proof fn settled_readings_stay<A: Arithmetic>(sample: Binary32, k: int)
    requires
        averages_keep::<A>(),
        averages_keep_lanes::<A>(),
    ensures
        forall|bank: &mut ResonatorBank|
            #![trigger call_ensures(ResonatorBank::process_sample::<A>, (bank, sample), ())]
            call_ensures(ResonatorBank::process_sample::<A>, (bank, sample), ()) && 0 <= k
                < (*bank)@.bins.len() && (*final(bank))@.bins[k].r == (*bank)@.bins[k].rr
                ==> (*final(bank))@.bins[k].rr == (*bank)@.bins[k].rr,
{
    assert forall|bank: &mut ResonatorBank|
        #![trigger call_ensures(ResonatorBank::process_sample::<A>, (bank, sample), ())]
        call_ensures(ResonatorBank::process_sample::<A>, (bank, sample), ()) && 0 <= k
            < (*bank)@.bins.len() && (*final(bank))@.bins[k].r == (*bank)@.bins[k].rr implies (*final(bank))@.bins[k].rr == (*bank)@.bins[k].rr by {
        settled_outputs_stay::<A>(Path::Simd, (*bank)@, sample, (*final(bank))@, k);
    }
}

// ---------------------------------------------------------------------------
// Hops
// ---------------------------------------------------------------------------

/// A spectrogram has a row of readings for each whole hop of the signal. With
/// repeatable arithmetic, the readings in a row are those of a bank that
/// started alike and processed the signal up to the end of that hop.
pub proof fn resonate_reads_after_each_hop<A: Arithmetic>(
    signal: &[Binary32],
    hop: usize,
    out: Vec<Complex>,
    rows: int,
    f: int,
    k: int,
    block: &[Binary32],
)
    requires
        0 < hop,
        0 <= rows,
        rows * hop <= signal@.len() < (rows + 1) * hop,
    ensures
        forall|bank: &mut ResonatorBank|
            #![trigger call_ensures(ResonatorBank::resonate::<A>, (bank, signal, hop), out)]
            call_ensures(ResonatorBank::resonate::<A>, (bank, signal, hop), out) ==> out@.len()
                == rows * (*bank)@.bins.len(),
        forall|bank: &mut ResonatorBank, other: &mut ResonatorBank|
            #![trigger call_ensures(ResonatorBank::resonate::<A>, (bank, signal, hop), out), call_ensures(ResonatorBank::process_samples::<A>, (other, block), ())]
            repeatable::<A>() && call_ensures(
                ResonatorBank::resonate::<A>,
                (bank, signal, hop),
                out,
            ) && call_ensures(ResonatorBank::process_samples::<A>, (other, block), ()) && (*other)@
                == (*bank)@ && 0 <= f < rows && 0 <= k < (*bank)@.bins.len() && block@
                == signal@.take((f + 1) * hop) ==> out@[f * (*bank)@.bins.len() + k] == (*final(other))@.bins[k].rr,
{
    whole_hops(signal@, hop as int, rows);
    assert forall|bank: &mut ResonatorBank|
        #![trigger call_ensures(ResonatorBank::resonate::<A>, (bank, signal, hop), out)]
        call_ensures(ResonatorBank::resonate::<A>, (bank, signal, hop), out) implies out@.len()
        == rows * (*bank)@.bins.len() by {
        let states = choose|states: Seq<BankState>| #[trigger]
            hops::<A>((*bank)@, signal@, hop as int, states) && (*final(bank))@ == states.last()
                && spectrogram(states, (*bank)@.bins.len(), out@);
        assert(states.len() - 1 == rows);
    }
    assert forall|bank: &mut ResonatorBank, other: &mut ResonatorBank|
        #![trigger call_ensures(ResonatorBank::resonate::<A>, (bank, signal, hop), out), call_ensures(ResonatorBank::process_samples::<A>, (other, block), ())]
        repeatable::<A>() && call_ensures(ResonatorBank::resonate::<A>, (bank, signal, hop), out)
            && call_ensures(ResonatorBank::process_samples::<A>, (other, block), ()) && (*other)@
            == (*bank)@ && 0 <= f < rows && 0 <= k < (*bank)@.bins.len() && block@ == signal@.take(
            (f + 1) * hop,
        ) implies out@[f * (*bank)@.bins.len() + k] == (*final(other))@.bins[k].rr by {
        let states = choose|states: Seq<BankState>| #[trigger]
            hops::<A>((*bank)@, signal@, hop as int, states) && (*final(bank))@ == states.last()
                && spectrogram(states, (*bank)@.bins.len(), out@);
        cells_read_the_end_of_their_hop::<A>(
            (*bank)@,
            signal@,
            hop as int,
            states,
            out@,
            f,
            k,
            (*final(other))@,
        );
    }
}

/// With repeatable arithmetic, `resonate` leaves the bank that the whole hops
/// leave as one block; the samples after them are not seen.
pub proof fn resonate_leaves_what_a_block_leaves<A: Arithmetic>(
    signal: &[Binary32],
    hop: usize,
    out: Vec<Complex>,
    rows: int,
    block: &[Binary32],
)
    requires
        repeatable::<A>(),
        0 < hop,
        0 <= rows,
        rows * hop <= signal@.len() < (rows + 1) * hop,
        block@ == signal@.take(rows * hop),
    ensures
        forall|bank: &mut ResonatorBank, other: &mut ResonatorBank|
            #![trigger call_ensures(ResonatorBank::resonate::<A>, (bank, signal, hop), out), call_ensures(ResonatorBank::process_samples::<A>, (other, block), ())]
            call_ensures(ResonatorBank::resonate::<A>, (bank, signal, hop), out) && call_ensures(
                ResonatorBank::process_samples::<A>,
                (other, block),
                (),
            ) && (*other)@ == (*bank)@ ==> (*final(bank))@ == (*final(other))@,
{
    whole_hops(signal@, hop as int, rows);
    assert forall|bank: &mut ResonatorBank, other: &mut ResonatorBank|
        #![trigger call_ensures(ResonatorBank::resonate::<A>, (bank, signal, hop), out), call_ensures(ResonatorBank::process_samples::<A>, (other, block), ())]
        call_ensures(ResonatorBank::resonate::<A>, (bank, signal, hop), out) && call_ensures(
            ResonatorBank::process_samples::<A>,
            (other, block),
            (),
        ) && (*other)@ == (*bank)@ implies (*final(bank))@ == (*final(other))@ by {
        let states = choose|states: Seq<BankState>| #[trigger]
            hops::<A>((*bank)@, signal@, hop as int, states) && (*final(bank))@ == states.last()
                && spectrogram(states, (*bank)@.bins.len(), out@);
        hops_leave_what_a_block_leaves::<A>(
            (*bank)@,
            signal@,
            hop as int,
            states,
            (*final(other))@,
        );
    }
}

/// A signal that holds `rows` hops and no more has that many whole hops.
proof fn whole_hops(signal: Seq<Binary32>, hop: int, rows: int)
    requires
        0 < hop,
        0 <= rows,
        rows * hop <= signal.len() < (rows + 1) * hop,
    ensures
        frame_count(signal, hop) == rows,
{
    let n = signal.len() as int;
    assert(n / hop == rows) by (nonlinear_arith)
        requires
            0 < hop,
            0 <= rows,
            rows * hop <= n < (rows + 1) * hop,
    ;
}

// ---------------------------------------------------------------------------
// What is accepted
// ---------------------------------------------------------------------------

/// Any configs or frequencies and any positive finite sample rate make a bank,
/// and the bank is well-formed.
pub proof fn positive_rates_make_banks<A: Arithmetic>(
    configs: &[ResonatorConfig],
    freqs: &[Binary32],
    rate: Binary32,
    bank: ResonatorBank,
)
    ensures
        0 < rate.bits < 0x7f80_0000 ==> {
            &&& call_requires(ResonatorBank::new::<A>, (configs, rate))
            &&& call_requires(ResonatorBank::from_frequencies::<A>, (freqs, rate))
        },
        call_ensures(ResonatorBank::new::<A>, (configs, rate), bank) ==> bank.wf(),
        call_ensures(ResonatorBank::from_frequencies::<A>, (freqs, rate), bank) ==> bank.wf(),
{
}

/// Every resonator of a well-formed bank can be read.
pub proof fn every_resonator_can_be_read<A: Arithmetic>(bank: &ResonatorBank, i: usize)
    requires
        bank.wf(),
        i < bank@.bins.len(),
    ensures
        call_requires(ResonatorBank::len, (bank,)),
        call_requires(ResonatorBank::freq, (bank, i)),
        call_requires(ResonatorBank::complex, (bank, i)),
        call_requires(ResonatorBank::power::<A>, (bank, i)),
        call_requires(ResonatorBank::magnitude::<A>, (bank, i)),
        call_requires(ResonatorBank::phase::<A>, (bank, i)),
        call_requires(ResonatorBank::frequencies, (bank,)),
        call_requires(ResonatorBank::powers::<A>, (bank,)),
        call_requires(ResonatorBank::magnitudes::<A>, (bank,)),
        call_requires(ResonatorBank::phases::<A>, (bank,)),
{
}

/// A well-formed bank can be reset, takes any samples as long as their number
/// can be counted, and is well-formed afterwards.
pub proof fn samples_are_accepted<A: Arithmetic>(sample: Binary32, samples: &[Binary32])
    ensures
        forall|bank: &mut ResonatorBank|
            #![trigger (*bank).wf()]
            (*bank).wf() ==> {
                &&& call_requires(ResonatorBank::reset, (bank,))
                &&& (*bank)@.count < u64::MAX ==> call_requires(
                    ResonatorBank::process_sample::<A>,
                    (bank, sample),
                )
                &&& (*bank)@.count + samples@.len() <= u64::MAX ==> call_requires(
                    ResonatorBank::process_samples::<A>,
                    (bank, samples),
                ) && call_requires(ResonatorBank::process_samples_scalar::<A>, (bank, samples))
            },
        forall|bank: &mut ResonatorBank| #[trigger]
            call_ensures(ResonatorBank::reset, (bank,), ()) ==> (*final(bank)).wf(),
        forall|bank: &mut ResonatorBank|
            #![trigger call_ensures(ResonatorBank::process_sample::<A>, (bank, sample), ())]
            call_ensures(ResonatorBank::process_sample::<A>, (bank, sample), ()) ==> (*final(bank)).wf(),
        forall|bank: &mut ResonatorBank|
            #![trigger call_ensures(ResonatorBank::process_samples::<A>, (bank, samples), ())]
            call_ensures(ResonatorBank::process_samples::<A>, (bank, samples), ()) ==> (*final(bank)).wf(),
        forall|bank: &mut ResonatorBank|
            #![trigger call_ensures(ResonatorBank::process_samples_scalar::<A>, (bank, samples), ())]
            call_ensures(ResonatorBank::process_samples_scalar::<A>, (bank, samples), ())
                ==> (*final(bank)).wf(),
{
}

/// A well-formed bank takes any signal in hops of any length above zero, as long
/// as its samples can be counted and its readings held, and is well-formed
/// afterwards.
pub proof fn signals_are_accepted<A: Arithmetic>(
    signal: &[Binary32],
    hop: usize,
    rows: int,
    out: Vec<Complex>,
)
    requires
        0 < hop,
        0 <= rows,
        rows * hop <= signal@.len() < (rows + 1) * hop,
    ensures
        forall|bank: &mut ResonatorBank|
            #![trigger (*bank).wf()]
            (*bank).wf() && (*bank)@.count + rows * hop <= u64::MAX && rows * (*bank)@.bins.len() * 8
                <= isize::MAX ==> call_requires(
                ResonatorBank::resonate::<A>,
                (bank, signal, hop),
            ),
        forall|bank: &mut ResonatorBank|
            #![trigger call_ensures(ResonatorBank::resonate::<A>, (bank, signal, hop), out)]
            call_ensures(ResonatorBank::resonate::<A>, (bank, signal, hop), out) ==> (*final(bank)).wf(),
{
    whole_hops(signal@, hop as int, rows);
}

} // verus!

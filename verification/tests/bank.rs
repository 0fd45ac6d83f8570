//! The bank on the machine's own single-precision arithmetic.

use std::f32::consts::PI;

use num_complex::Complex32;
use resonators::{
    Arithmetic, Binary32, Complex, Lanes, ResonatorBank, ResonatorConfig, STABILIZE_EVERY,
};
use wide::f32x4;

/// Single precision as the machine computes it.
struct Native;

fn num(x: Binary32) -> f32 {
    f32::from_bits(x.bits)
}

fn bin(x: f32) -> Binary32 {
    Binary32::from_bits(x.to_bits())
}

fn vec4(x: Lanes) -> f32x4 {
    f32x4::new([num(x.x0), num(x.x1), num(x.x2), num(x.x3)])
}

fn lanes(x: f32x4) -> Lanes {
    let [x0, x1, x2, x3] = x.to_array();
    Lanes { x0: bin(x0), x1: bin(x1), x2: bin(x2), x3: bin(x3) }
}

fn heuristic_alpha(freq: f32, sample_rate: f32) -> f32 {
    1.0 - (-(freq / (1.0 + freq).log10()) / sample_rate).exp()
}

impl Arithmetic for Native {
    fn plus(a: Binary32, b: Binary32) -> Binary32 {
        bin(num(a) + num(b))
    }
    fn minus(a: Binary32, b: Binary32) -> Binary32 {
        bin(num(a) - num(b))
    }
    fn times(a: Binary32, b: Binary32) -> Binary32 {
        bin(num(a) * num(b))
    }
    fn over(a: Binary32, b: Binary32) -> Binary32 {
        bin(num(a) / num(b))
    }
    fn mul_add(a: Binary32, b: Binary32, c: Binary32) -> Binary32 {
        bin(num(a).mul_add(num(b), num(c)))
    }
    fn sqrt(a: Binary32) -> Binary32 {
        bin(num(a).sqrt())
    }
    fn cos(a: Binary32) -> Binary32 {
        bin(num(a).cos())
    }
    fn sin(a: Binary32) -> Binary32 {
        bin(num(a).sin())
    }
    fn atan2(y: Binary32, x: Binary32) -> Binary32 {
        bin(num(y).atan2(num(x)))
    }
    fn plus_x4(a: Lanes, b: Lanes) -> Lanes {
        lanes(vec4(a) + vec4(b))
    }
    fn minus_x4(a: Lanes, b: Lanes) -> Lanes {
        lanes(vec4(a) - vec4(b))
    }
    fn times_x4(a: Lanes, b: Lanes) -> Lanes {
        lanes(vec4(a) * vec4(b))
    }
    fn mul_add_x4(a: Lanes, b: Lanes, c: Lanes) -> Lanes {
        lanes(vec4(a).mul_add(vec4(b), vec4(c)))
    }
    fn heuristic_alpha(freq: Binary32, sample_rate: Binary32) -> Binary32 {
        bin(heuristic_alpha(num(freq), num(sample_rate)))
    }
}

/// Numbers as the lanes of [`Native`] compute them, however the multiply-add
/// on lanes rounds.
struct OneLane;

fn first(x: Lanes) -> Binary32 {
    x.x0
}

impl Arithmetic for OneLane {
    fn plus(a: Binary32, b: Binary32) -> Binary32 {
        first(Native::plus_x4(Lanes::splat(a), Lanes::splat(b)))
    }
    fn minus(a: Binary32, b: Binary32) -> Binary32 {
        first(Native::minus_x4(Lanes::splat(a), Lanes::splat(b)))
    }
    fn times(a: Binary32, b: Binary32) -> Binary32 {
        first(Native::times_x4(Lanes::splat(a), Lanes::splat(b)))
    }
    fn over(a: Binary32, b: Binary32) -> Binary32 {
        Native::over(a, b)
    }
    fn mul_add(a: Binary32, b: Binary32, c: Binary32) -> Binary32 {
        first(Native::mul_add_x4(Lanes::splat(a), Lanes::splat(b), Lanes::splat(c)))
    }
    fn sqrt(a: Binary32) -> Binary32 {
        Native::sqrt(a)
    }
    fn cos(a: Binary32) -> Binary32 {
        Native::cos(a)
    }
    fn sin(a: Binary32) -> Binary32 {
        Native::sin(a)
    }
    fn atan2(y: Binary32, x: Binary32) -> Binary32 {
        Native::atan2(y, x)
    }
    fn plus_x4(a: Lanes, b: Lanes) -> Lanes {
        Native::plus_x4(a, b)
    }
    fn minus_x4(a: Lanes, b: Lanes) -> Lanes {
        Native::minus_x4(a, b)
    }
    fn times_x4(a: Lanes, b: Lanes) -> Lanes {
        Native::times_x4(a, b)
    }
    fn mul_add_x4(a: Lanes, b: Lanes, c: Lanes) -> Lanes {
        Native::mul_add_x4(a, b, c)
    }
    fn heuristic_alpha(freq: Binary32, sample_rate: Binary32) -> Binary32 {
        Native::heuristic_alpha(freq, sample_rate)
    }
}

fn config(freq: f32, alpha: f32, beta: f32) -> ResonatorConfig {
    ResonatorConfig::new(bin(freq), bin(alpha), bin(beta))
}

fn bank_of(configs: &[ResonatorConfig], sample_rate: f32) -> ResonatorBank {
    ResonatorBank::new::<Native>(configs, bin(sample_rate))
}

fn bins(samples: &[f32]) -> Vec<Binary32> {
    samples.iter().map(|&s| bin(s)).collect()
}

fn complex32(c: Complex) -> Complex32 {
    Complex32::new(num(c.re), num(c.im))
}

fn readings(bank: &ResonatorBank) -> Vec<Complex> {
    (0..bank.len()).map(|i| bank.complex(i)).collect()
}

fn cosine(freq: f32, sample_rate: f32, n: usize) -> Vec<f32> {
    (0..n).map(|i| (2.0 * PI * freq * i as f32 / sample_rate).cos()).collect()
}

fn thirteen() -> Vec<ResonatorConfig> {
    let sr = 44_100.0f32;
    let freqs = [
        100.0, 200.0, 300.0, 440.0, 600.0, 880.0, 1200.0, 1760.0, 2400.0, 3520.0, 5000.0, 7040.0,
        10_000.0,
    ];
    freqs
        .iter()
        .map(|&f| {
            let a = heuristic_alpha(f, sr);
            config(f, a, a)
        })
        .collect()
}

#[test]
fn matched_sine_power_converges_near_one_quarter() {
    let sr = 44100.0;
    let freq = 440.0;
    let alpha = heuristic_alpha(freq, sr);
    let configs = vec![config(freq, alpha, alpha)];
    let mut bank = bank_of(&configs, sr);
    let signal: Vec<f32> = cosine(freq, sr, 2 * sr as usize);
    bank.process_samples::<Native>(&bins(&signal));
    let power = num(bank.power::<Native>(0));
    assert!((power - 0.25).abs() < 0.01, "power should be ~0.25, got {}", power);
}

#[test]
fn peaks_at_matched_bin() {
    let sr = 44100.0;
    let freqs = [220.0, 440.0, 880.0];
    let configs: Vec<_> = freqs
        .iter()
        .map(|&f| {
            let a = heuristic_alpha(f, sr);
            config(f, a, a)
        })
        .collect();
    let mut bank = bank_of(&configs, sr);
    let signal = cosine(440.0, sr, sr as usize);
    bank.process_samples::<Native>(&bins(&signal));
    let p: Vec<f32> = bank.powers::<Native>().into_iter().map(num).collect();
    assert!(p[1] > p[0] * 10.0, "440 should dominate 220: {p:?}");
    assert!(p[1] > p[2] * 10.0, "440 should dominate 880: {p:?}");
}

#[test]
fn resonate_matches_streaming() {
    let sr = 44100.0;
    let hop = 256;
    let configs = vec![config(440.0, 0.01, 0.01), config(880.0, 0.01, 0.01)];
    let signal = bins(&cosine(440.0, sr, sr as usize));

    // batch
    let mut bank = bank_of(&configs, sr);
    let batch = bank.resonate::<Native>(&signal, hop);

    // streaming equivalent
    let mut bank2 = bank_of(&configs, sr);
    let mut streamed = Vec::with_capacity(batch.len());
    for chunk in signal.chunks_exact(hop) {
        bank2.process_samples::<Native>(chunk);
        for i in 0..bank2.len() {
            streamed.push(bank2.complex(i));
        }
    }
    assert_eq!(batch, streamed);
}

#[test]
fn reset_clears_state() {
    let configs = vec![config(440.0, 0.01, 0.01)];
    let mut bank = bank_of(&configs, 44100.0);
    bank.process_samples::<Native>(&bins(&vec![0.5; 1000]));
    assert!(num(bank.magnitude::<Native>(0)) > 0.0);
    bank.reset();
    assert_eq!(complex32(bank.complex(0)), Complex32::new(0.0, 0.0));
}

/// One resonator with separate multiplications and additions.
fn scalar_resonator(freq: f32, alpha: f32, beta: f32, sample_rate: f32, signal: &[f32]) -> Complex32 {
    let angle = -2.0 * PI * freq / sample_rate;
    let w = Complex32::new(angle.cos(), angle.sin());
    let mut z = Complex32::new(1.0, 0.0);
    let mut r = Complex32::new(0.0, 0.0);
    let mut rr = Complex32::new(0.0, 0.0);
    let mut sample_count = 0u64;
    for &s in signal {
        r = r * (1.0 - alpha) + z * (alpha * s);
        rr = rr * (1.0 - beta) + r * beta;
        z = z * w;
        sample_count += 1;
        if sample_count % STABILIZE_EVERY == 0 {
            z = z * (1.0 / z.norm());
        }
    }
    rr
}

#[test]
fn single_bin_bank_matches_scalar_resonator() {
    // The bank uses mul_add in the hot loop, the resonator separate mul + add.
    // Results agree to within f32 rounding, not bit-for-bit.
    let sr = 44100.0;
    let freq = 440.0;
    let alpha = heuristic_alpha(freq, sr);
    let signal = cosine(freq, sr, 2000);

    let rc = scalar_resonator(freq, alpha, alpha, sr, &signal);
    let mut bank = bank_of(&[config(freq, alpha, alpha)], sr);
    bank.process_samples::<Native>(&bins(&signal));
    let bc = complex32(bank.complex(0));
    assert!((rc.re - bc.re).abs() < 1e-5, "re drift: scalar={} bank={}", rc.re, bc.re);
    assert!((rc.im - bc.im).abs() < 1e-5, "im drift: scalar={} bank={}", rc.im, bc.im);
}

#[test]
fn resonate_empty_signal() {
    let configs = vec![config(440.0, 0.01, 0.01)];
    let mut bank = bank_of(&configs, 44100.0);
    assert!(bank.resonate::<Native>(&[], 256).is_empty());
}

#[test]
fn resonate_signal_shorter_than_hop() {
    let configs = vec![config(440.0, 0.01, 0.01)];
    let mut bank = bank_of(&configs, 44100.0);
    let signal = bins(&vec![0.5f32; 100]);
    assert!(bank.resonate::<Native>(&signal, 256).is_empty());
}

#[test]
fn resonate_drops_trailing_samples() {
    let configs = vec![config(440.0, 0.01, 0.01), config(880.0, 0.01, 0.01)];
    let mut bank = bank_of(&configs, 44100.0);
    let hop = 256;
    let signal = bins(&vec![0.5f32; 3 * hop + 50]);
    let out = bank.resonate::<Native>(&signal, hop);
    assert_eq!(out.len(), 3 * bank.len());
}

#[test]
#[should_panic]
fn resonate_panics_on_zero_hop() {
    let configs = vec![config(440.0, 0.01, 0.01)];
    let mut bank = bank_of(&configs, 44100.0);
    let _ = bank.resonate::<Native>(&bins(&[0.0; 100]), 0);
}

/// Independent scalar reference for the grouped code path.
fn scalar_reference_bank(
    configs: &[ResonatorConfig],
    sample_rate: f32,
    signal: &[f32],
) -> Vec<Complex32> {
    let n = configs.len();
    let mut alphas = Vec::with_capacity(n);
    let mut betas = Vec::with_capacity(n);
    let mut w_re = Vec::with_capacity(n);
    let mut w_im = Vec::with_capacity(n);
    let mut z_re = vec![1.0f32; n];
    let mut z_im = vec![0.0f32; n];
    let mut r_re = vec![0.0f32; n];
    let mut r_im = vec![0.0f32; n];
    let mut rr_re = vec![0.0f32; n];
    let mut rr_im = vec![0.0f32; n];

    for c in configs {
        alphas.push(num(c.alpha));
        betas.push(num(c.beta));
        let ang = -2.0 * PI * num(c.freq) / sample_rate;
        w_re.push(ang.cos());
        w_im.push(ang.sin());
    }

    let mut sample_count = 0u64;
    for &s in signal {
        for k in 0..n {
            let a = alphas[k];
            let b = betas[k];
            let a_s = a * s;
            r_re[k] = (1.0 - a).mul_add(r_re[k], a_s * z_re[k]);
            r_im[k] = (1.0 - a).mul_add(r_im[k], a_s * z_im[k]);
            rr_re[k] = (1.0 - b).mul_add(rr_re[k], b * r_re[k]);
            rr_im[k] = (1.0 - b).mul_add(rr_im[k], b * r_im[k]);
            let zr = z_re[k];
            let zi = z_im[k];
            z_re[k] = zr * w_re[k] - zi * w_im[k];
            z_im[k] = zr * w_im[k] + zi * w_re[k];
        }
        sample_count += 1;
        if sample_count % STABILIZE_EVERY == 0 {
            for k in 0..n {
                let inv_mag = 1.0 / (z_re[k] * z_re[k] + z_im[k] * z_im[k]).sqrt();
                z_re[k] *= inv_mag;
                z_im[k] *= inv_mag;
            }
        }
    }

    (0..n).map(|k| Complex32::new(rr_re[k], rr_im[k])).collect()
}

/// The grouped path must match the independent scalar reference to within f32
/// rounding. Exercises both the full groups and the scalar tail.
#[test]
fn simd_matches_scalar_reference() {
    let sr = 44_100.0f32;
    // 13 bins: 3 full groups and a tail of 1.
    let configs = thirteen();
    // Signal spans multiple stabilization boundaries.
    let signal: Vec<f32> = cosine(440.0, sr, 4000).into_iter().map(|x| x * 0.7).collect();

    let mut bank = bank_of(&configs, sr);
    bank.process_samples::<Native>(&bins(&signal));
    let simd: Vec<Complex32> = (0..bank.len()).map(|i| complex32(bank.complex(i))).collect();

    let scalar = scalar_reference_bank(&configs, sr, &signal);

    assert_eq!(simd.len(), scalar.len());
    for (i, (s, r)) in simd.iter().zip(&scalar).enumerate() {
        assert!(
            (s.re - r.re).abs() < 1e-5 && (s.im - r.im).abs() < 1e-5,
            "bin {i}: simd={s:?} scalar={r:?}"
        );
    }
}

#[test]
fn scalar_path_is_the_scalar_reference() {
    let sr = 44_100.0f32;
    let configs = thirteen();
    let signal = cosine(440.0, sr, 2000);
    let mut bank = bank_of(&configs, sr);
    bank.process_samples_scalar::<Native>(&bins(&signal));
    let got: Vec<Complex32> = readings(&bank).into_iter().map(complex32).collect();
    assert_eq!(got, scalar_reference_bank(&configs, sr, &signal));
}

#[test]
fn blocks_and_single_samples_agree() {
    let sr = 44_100.0f32;
    let configs = thirteen();
    let signal = bins(&cosine(440.0, sr, 1500));

    let mut block = bank_of(&configs, sr);
    block.process_samples::<Native>(&signal);

    let mut single = bank_of(&configs, sr);
    for &s in &signal {
        single.process_sample::<Native>(s);
    }

    let mut cut = bank_of(&configs, sr);
    cut.process_samples::<Native>(&signal[..700]);
    cut.process_samples::<Native>(&[]);
    cut.process_samples::<Native>(&signal[700..1024]);
    cut.process_samples::<Native>(&signal[1024..]);

    assert_eq!(readings(&block), readings(&single));
    assert_eq!(readings(&block), readings(&cut));
}

#[test]
fn tuning_survives_samples_and_reset() {
    let configs = thirteen();
    let mut bank = bank_of(&configs, 44_100.0);
    let freqs: Vec<Binary32> = configs.iter().map(|c| c.freq).collect();
    assert_eq!(bank.frequencies(), freqs);
    bank.process_samples::<Native>(&bins(&vec![0.5; 1000]));
    assert_eq!(bank.frequencies(), freqs);
    bank.reset();
    assert_eq!(bank.frequencies(), freqs);
    assert_eq!(bank.freq(3), bin(440.0));
    assert_eq!(bank.len(), 13);
}

#[test]
fn reset_bank_runs_like_a_fresh_one() {
    let sr = 44_100.0f32;
    let configs = thirteen();
    let signal = bins(&cosine(300.0, sr, 1300));
    let mut used = bank_of(&configs, sr);
    used.process_samples::<Native>(&bins(&vec![0.25; 777]));
    used.reset();
    for c in readings(&used) {
        assert_eq!(c, Complex::new(bin(0.0), bin(0.0)));
    }
    used.process_samples::<Native>(&signal);
    let mut fresh = bank_of(&configs, sr);
    fresh.process_samples::<Native>(&signal);
    assert_eq!(readings(&used), readings(&fresh));
}

#[test]
fn trailing_samples_leave_no_trace() {
    let sr = 44_100.0f32;
    let configs = thirteen();
    let signal = bins(&cosine(300.0, sr, 3 * 100 + 37));
    let mut long = bank_of(&configs, sr);
    let mut exact = bank_of(&configs, sr);
    assert_eq!(long.resonate::<Native>(&signal, 100), exact.resonate::<Native>(&signal[..300], 100));
    assert_eq!(readings(&long), readings(&exact));
    long.process_sample::<Native>(bin(1.0));
    exact.process_sample::<Native>(bin(1.0));
    assert_eq!(readings(&long), readings(&exact));
}

#[test]
fn short_signal_leaves_the_bank_alone() {
    let configs = thirteen();
    let mut bank = bank_of(&configs, 44_100.0);
    bank.process_samples::<Native>(&bins(&vec![0.5; 20]));
    let before = readings(&bank);
    assert!(bank.resonate::<Native>(&bins(&vec![0.5; 9]), 10).is_empty());
    assert_eq!(readings(&bank), before);
}

#[test]
fn spectrogram_in_parts() {
    let sr = 44_100.0f32;
    let configs = thirteen();
    let signal = bins(&cosine(300.0, sr, 1000));
    let mut whole = bank_of(&configs, sr);
    let out = whole.resonate::<Native>(&signal, 64);
    let mut parts = bank_of(&configs, sr);
    let mut joined = parts.resonate::<Native>(&signal[..256], 64);
    joined.extend(parts.resonate::<Native>(&signal[256..], 64));
    assert_eq!(out.len(), 15 * 13);
    assert_eq!(out, joined);
    // the last row is what the bank reads now
    assert_eq!(out[14 * 13..], readings(&whole)[..]);
}

#[test]
fn alike_resonators_read_alike() {
    let sr = 44_100.0f32;
    let mut configs = thirteen();
    configs[9] = configs[2];
    configs.push(configs[12]);
    let mut bank = bank_of(&configs, sr);
    bank.process_samples::<Native>(&bins(&cosine(300.0, sr, 1300)));
    // both in groups
    assert_eq!(bank.complex(2), bank.complex(9));
    // both in the tail
    assert_eq!(bank.complex(12), bank.complex(13));
}

#[test]
fn scalar_resonators_are_independent() {
    let sr = 44_100.0f32;
    let configs = thirteen();
    let signal = bins(&cosine(300.0, sr, 1300));
    let mut bank = bank_of(&configs, sr);
    bank.process_samples_scalar::<Native>(&signal);
    for (k, c) in configs.iter().enumerate() {
        let mut alone = bank_of(&[*c], sr);
        alone.process_samples_scalar::<Native>(&signal);
        assert_eq!(alone.complex(0), bank.complex(k));
    }
}

#[test]
fn small_banks_have_one_path() {
    let sr = 44_100.0f32;
    let configs = &thirteen()[..3];
    let signal = bins(&cosine(300.0, sr, 1300));
    let mut simd = bank_of(configs, sr);
    let mut scalar = bank_of(configs, sr);
    simd.process_samples::<Native>(&signal);
    scalar.process_samples_scalar::<Native>(&signal);
    assert_eq!(readings(&simd), readings(&scalar));
}

#[test]
fn readings_of_one_sample() {
    // r = 0.5, rr = 0.25
    let mut bank = bank_of(&[config(0.0, 0.5, 0.5)], 44_100.0);
    bank.process_sample::<Native>(bin(1.0));
    assert_eq!(complex32(bank.complex(0)), Complex32::new(0.25, 0.0));
    assert_eq!(num(bank.power::<Native>(0)), 0.0625);
    assert_eq!(num(bank.magnitude::<Native>(0)), 0.25);
    assert_eq!(num(bank.phase::<Native>(0)), 0.0);
    // r = 0.5 * 0.5 + 0.5 * 2 = 1.25, rr = 0.5 * 0.25 + 0.5 * 1.25 = 0.75
    bank.process_sample::<Native>(bin(2.0));
    assert_eq!(complex32(bank.complex(0)), Complex32::new(0.75, 0.0));
    assert_eq!(bank.powers::<Native>(), bins(&[0.5625]));
    assert_eq!(bank.magnitudes::<Native>(), bins(&[0.75]));
    assert_eq!(bank.phases::<Native>(), bins(&[0.0]));
}

#[test]
fn phasor_turns_clockwise() {
    // a quarter turn per sample; the reading follows the phasor
    let quarter = config(11_025.0, 1.0, 1.0);
    let mut bank = bank_of(&[quarter; 5], 44_100.0);
    bank.process_sample::<Native>(bin(1.0));
    bank.process_sample::<Native>(bin(2.0));
    for i in 0..5 {
        let c = complex32(bank.complex(i));
        assert!(c.re.abs() < 1e-6 && (c.im + 2.0).abs() < 1e-6, "{c:?}");
        assert!((num(bank.phase::<Native>(i)) + PI / 2.0).abs() < 1e-6);
        assert!((num(bank.magnitudes::<Native>()[i]) - 2.0).abs() < 1e-6);
        assert!((num(bank.phases::<Native>()[i]) + PI / 2.0).abs() < 1e-6);
    }
}

#[test]
fn from_frequencies_uses_the_heuristic_for_both_weights() {
    let sr = 44_100.0f32;
    let freqs = [220.0f32, 440.0, 880.0, 1760.0, 3520.0];
    let configs: Vec<_> = freqs
        .iter()
        .map(|&f| {
            let a = heuristic_alpha(f, sr);
            config(f, a, a)
        })
        .collect();
    let signal = bins(&cosine(440.0, sr, 600));
    let mut a = ResonatorBank::from_frequencies::<Native>(&bins(&freqs), bin(sr));
    let mut b = bank_of(&configs, sr);
    a.process_samples::<Native>(&signal);
    b.process_samples::<Native>(&signal);
    assert_eq!(a.frequencies(), bins(&freqs));
    assert_eq!(readings(&a), readings(&b));
}

#[test]
fn empty_bank() {
    let mut bank = bank_of(&[], 44_100.0);
    bank.process_samples::<Native>(&bins(&vec![1.0; 600]));
    assert_eq!(bank.len(), 0);
    assert!(bank.resonate::<Native>(&bins(&vec![1.0; 600]), 100).is_empty());
    assert!(bank.powers::<Native>().is_empty());
    assert!(bank.magnitudes::<Native>().is_empty());
    assert!(bank.phases::<Native>().is_empty());
    assert!(bank.frequencies().is_empty());
}

#[test]
fn grouped_resonators_match_their_scalar_selves() {
    let sr = 44_100.0f32;
    let configs = thirteen();
    let signal = bins(&cosine(300.0, sr, 1300));
    let mut bank = bank_of(&configs, sr);
    bank.process_samples::<Native>(&signal);
    for k in 0..12 {
        let mut alone = bank_of(&configs[k..k + 1], sr);
        alone.process_samples_scalar::<OneLane>(&signal);
        assert_eq!(alone.complex(0), bank.complex(k));
    }
    // the one after the groups is scalar already
    let mut alone = bank_of(&configs[12..], sr);
    alone.process_samples_scalar::<Native>(&signal);
    assert_eq!(alone.complex(0), bank.complex(12));
    // and does not care about the path of its bank
    let mut scalar = bank_of(&configs, sr);
    scalar.process_samples_scalar::<Native>(&signal);
    assert_eq!(scalar.complex(12), bank.complex(12));
}

#[test]
fn any_history_resets_to_the_built_bank() {
    let sr = 44_100.0f32;
    let configs = thirteen();
    let signal = bins(&cosine(300.0, sr, 900));
    let mut used = bank_of(&configs, sr);
    used.process_sample::<Native>(bin(0.5));
    used.process_samples::<Native>(&signal);
    used.reset();
    used.process_samples_scalar::<Native>(&signal[..600]);
    used.resonate::<Native>(&signal, 64);
    assert_eq!(used.len(), 13);
    assert_eq!(used.frequencies(), configs.iter().map(|c| c.freq).collect::<Vec<_>>());
    used.reset();
    let mut fresh = bank_of(&configs, sr);
    assert_eq!(used.resonate::<Native>(&signal, 64), fresh.resonate::<Native>(&signal, 64));
}

#[test]
fn doubled_frequency_and_rate_rotate_alike() {
    let signal = bins(&cosine(300.0, 44_100.0, 900));
    let mut a = bank_of(&[config(440.0, 0.01, 0.02); 5], 44_100.0);
    let mut b = bank_of(&[config(880.0, 0.01, 0.02); 5], 88_200.0);
    a.process_samples::<Native>(&signal);
    b.process_samples::<Native>(&signal);
    assert_eq!(readings(&a), readings(&b));
}

#[test]
fn scaled_samples_give_scaled_readings() {
    let sr = 44_100.0f32;
    let configs = thirteen();
    let signal = cosine(300.0, sr, 1300);
    let mut plain = bank_of(&configs, sr);
    plain.process_samples::<Native>(&bins(&signal));
    for c in [2.0f32, 0.5, -1.0, -4.0] {
        let scaled: Vec<f32> = signal.iter().map(|s| c * s).collect();
        let mut bank = bank_of(&configs, sr);
        bank.process_samples::<Native>(&bins(&scaled));
        for i in 0..bank.len() {
            let (x, y) = (complex32(plain.complex(i)), complex32(bank.complex(i)));
            assert_eq!(y, Complex32::new(c * x.re, c * x.im));
            assert_eq!(
                num(bank.power::<Native>(i)),
                c * c * num(plain.power::<Native>(i))
            );
        }
    }
}

#[test]
fn phasors_do_not_hear_the_samples() {
    // with both weights one, a reading is the last sample times the phasor
    let configs = [config(440.0, 1.0, 1.0); 6];
    let sr = 44_100.0f32;
    let mut loud = bank_of(&configs, sr);
    let mut silent = bank_of(&configs, sr);
    loud.process_samples::<Native>(&bins(&cosine(300.0, sr, 600)));
    silent.process_samples::<Native>(&bins(&vec![0.0; 600]));
    loud.process_sample::<Native>(bin(1.0));
    silent.process_sample::<Native>(bin(1.0));
    assert_eq!(readings(&loud), readings(&silent));
}

//! The bank on made-up arithmetic, where every outcome can be told in advance.

use resonators::config::pair_configs;
use resonators::dynamics::heuristic_alphas;
use resonators::number::{
    INFINITY_BITS, MINUS_ONE_BITS, MINUS_PI_BITS, MINUS_TWO_BITS, MINUS_ZERO_BITS, ONE_BITS,
    PI_BITS, ZERO_BITS,
};
use resonators::{
    Arithmetic, Binary32, Complex, Lanes, ResonatorBank, ResonatorConfig, STABILIZE_EVERY,
};

fn b(bits: u32) -> Binary32 {
    Binary32::from_bits(bits)
}

fn each2(f: fn(Binary32, Binary32) -> Binary32, x: Lanes, y: Lanes) -> Lanes {
    Lanes { x0: f(x.x0, y.x0), x1: f(x.x1, y.x1), x2: f(x.x2, y.x2), x3: f(x.x3, y.x3) }
}

/// Integer arithmetic on the bits, the same in every lane.
struct Wrapping;

impl Arithmetic for Wrapping {
    fn plus(x: Binary32, y: Binary32) -> Binary32 {
        b(x.bits.wrapping_add(y.bits))
    }
    fn minus(x: Binary32, y: Binary32) -> Binary32 {
        b(x.bits.wrapping_sub(y.bits))
    }
    fn times(x: Binary32, y: Binary32) -> Binary32 {
        b(x.bits.wrapping_mul(y.bits))
    }
    fn over(x: Binary32, y: Binary32) -> Binary32 {
        b(x.bits / y.bits)
    }
    fn mul_add(x: Binary32, y: Binary32, z: Binary32) -> Binary32 {
        b(x.bits.wrapping_mul(y.bits).wrapping_add(z.bits))
    }
    fn sqrt(x: Binary32) -> Binary32 {
        b(x.bits | 1)
    }
    fn cos(x: Binary32) -> Binary32 {
        b(x.bits.wrapping_add(3))
    }
    fn sin(x: Binary32) -> Binary32 {
        b(x.bits.wrapping_mul(5))
    }
    fn atan2(y: Binary32, x: Binary32) -> Binary32 {
        b(y.bits.wrapping_sub(x.bits.wrapping_mul(2)))
    }
    fn plus_x4(x: Lanes, y: Lanes) -> Lanes {
        each2(Self::plus, x, y)
    }
    fn minus_x4(x: Lanes, y: Lanes) -> Lanes {
        each2(Self::minus, x, y)
    }
    fn times_x4(x: Lanes, y: Lanes) -> Lanes {
        each2(Self::times, x, y)
    }
    fn mul_add_x4(x: Lanes, y: Lanes, z: Lanes) -> Lanes {
        each2(Self::plus, each2(Self::times, x, y), z)
    }
    fn heuristic_alpha(freq: Binary32, sample_rate: Binary32) -> Binary32 {
        b(freq.bits ^ sample_rate.bits)
    }
}

fn configs(n: u32) -> Vec<ResonatorConfig> {
    (0..n).map(|k| ResonatorConfig::new(b(100 + k), b(7 * k + 2), b(11 * k + 3))).collect()
}

fn signal(n: u32) -> Vec<Binary32> {
    (0..n).map(|i| b(i.wrapping_mul(2_654_435_761) >> 7)).collect()
}

fn readings(bank: &ResonatorBank) -> Vec<Complex> {
    (0..bank.len()).map(|i| bank.complex(i)).collect()
}

/// The readings of one resonator, by the formulas, with the bits as integers.
fn reference(c: ResonatorConfig, rate: u32, signal: &[Binary32]) -> Complex {
    let angle = MINUS_TWO_BITS.wrapping_mul(PI_BITS).wrapping_mul(c.freq.bits) / rate;
    let (w_re, w_im) = (angle.wrapping_add(3), angle.wrapping_mul(5));
    let (mut z_re, mut z_im) = (ONE_BITS, ZERO_BITS);
    let (mut r_re, mut r_im, mut rr_re, mut rr_im) = (0u32, 0u32, 0u32, 0u32);
    for (i, s) in signal.iter().enumerate() {
        let keep = ONE_BITS.wrapping_sub(c.alpha.bits);
        let hold = ONE_BITS.wrapping_sub(c.beta.bits);
        let gain = c.alpha.bits.wrapping_mul(s.bits);
        r_re = keep.wrapping_mul(r_re).wrapping_add(gain.wrapping_mul(z_re));
        r_im = keep.wrapping_mul(r_im).wrapping_add(gain.wrapping_mul(z_im));
        rr_re = hold.wrapping_mul(rr_re).wrapping_add(c.beta.bits.wrapping_mul(r_re));
        rr_im = hold.wrapping_mul(rr_im).wrapping_add(c.beta.bits.wrapping_mul(r_im));
        let (a, d) = (z_re, z_im);
        z_re = a.wrapping_mul(w_re).wrapping_sub(d.wrapping_mul(w_im));
        z_im = a.wrapping_mul(w_im).wrapping_add(d.wrapping_mul(w_re));
        if (i as u64 + 1) % STABILIZE_EVERY == 0 {
            let power = z_re.wrapping_mul(z_re).wrapping_add(z_im.wrapping_mul(z_im));
            let inv = ONE_BITS / (power | 1);
            z_re = z_re.wrapping_mul(inv);
            z_im = z_im.wrapping_mul(inv);
        }
    }
    Complex::new(b(rr_re), b(rr_im))
}

#[test]
fn both_paths_follow_the_formulas() {
    let rate = b(17);
    let sig = signal(1500);
    for n in 0..10 {
        let configs = configs(n);
        let want: Vec<Complex> = configs.iter().map(|&c| reference(c, 17, &sig)).collect();
        let mut simd = ResonatorBank::new::<Wrapping>(&configs, rate);
        simd.process_samples::<Wrapping>(&sig);
        assert_eq!(readings(&simd), want);
        let mut scalar = ResonatorBank::new::<Wrapping>(&configs, rate);
        scalar.process_samples_scalar::<Wrapping>(&sig);
        assert_eq!(readings(&scalar), want);
    }
}

#[test]
fn stabilization_comes_at_the_boundary() {
    let sig = signal(STABILIZE_EVERY as u32 + 2);
    let c = configs(1);
    for n in [511usize, 512, 513, 514] {
        let mut bank = ResonatorBank::new::<Wrapping>(&c, b(17));
        for &s in &sig[..n] {
            bank.process_sample::<Wrapping>(s);
        }
        assert_eq!(bank.complex(0), reference(c[0], 17, &sig[..n]));
    }
}

#[test]
fn a_reset_starts_the_count_again() {
    let sig = signal(600);
    let c = configs(5);
    let mut bank = ResonatorBank::new::<Wrapping>(&c, b(17));
    bank.process_samples::<Wrapping>(&sig[..300]);
    bank.reset();
    bank.process_samples::<Wrapping>(&sig);
    let want: Vec<Complex> = c.iter().map(|&c| reference(c, 17, &sig)).collect();
    assert_eq!(readings(&bank), want);
}

#[test]
fn readings_are_computed_from_the_smoothed_output() {
    let sig = signal(3);
    let c = configs(6);
    let mut bank = ResonatorBank::new::<Wrapping>(&c, b(17));
    bank.process_samples::<Wrapping>(&sig);
    for i in 0..6usize {
        let z = reference(c[i], 17, &sig);
        let power = z
            .re
            .bits
            .wrapping_mul(z.re.bits)
            .wrapping_add(z.im.bits.wrapping_mul(z.im.bits));
        assert_eq!(bank.power::<Wrapping>(i), b(power));
        assert_eq!(bank.powers::<Wrapping>()[i], b(power));
        assert_eq!(bank.magnitude::<Wrapping>(i), b(power | 1));
        assert_eq!(bank.magnitudes::<Wrapping>()[i], b(power | 1));
        let phase = z.im.bits.wrapping_sub(z.re.bits.wrapping_mul(2));
        assert_eq!(bank.phase::<Wrapping>(i), b(phase));
        assert_eq!(bank.phases::<Wrapping>()[i], b(phase));
    }
}

#[test]
fn rows_of_a_spectrogram() {
    let sig = signal(23);
    let c = configs(5);
    let mut bank = ResonatorBank::new::<Wrapping>(&c, b(17));
    let out = bank.resonate::<Wrapping>(&sig, 7);
    assert_eq!(out.len(), 15);
    for f in 0..3usize {
        for k in 0..5usize {
            assert_eq!(out[f * 5 + k], reference(c[k], 17, &sig[..(f + 1) * 7]));
        }
    }
}

#[test]
fn weights_and_configs_from_frequencies() {
    let freqs = [b(10), b(20), b(30), b(40), b(50)];
    let alphas = heuristic_alphas::<Wrapping>(&freqs, b(17));
    assert_eq!(alphas, vec![b(10 ^ 17), b(20 ^ 17), b(30 ^ 17), b(40 ^ 17), b(50 ^ 17)]);
    assert_eq!(heuristic_alphas::<Wrapping>(&[], b(17)), vec![]);
    assert_eq!(
        pair_configs(&freqs[..3], &[b(1), b(2), b(3), b(4)]),
        vec![
            ResonatorConfig::new(b(10), b(1), b(1)),
            ResonatorConfig::new(b(20), b(2), b(2)),
            ResonatorConfig::new(b(30), b(3), b(3)),
        ]
    );
    assert_eq!(pair_configs(&freqs, &[]), vec![]);

    let sig = signal(700);
    let mut bank = ResonatorBank::from_frequencies::<Wrapping>(&freqs, b(17));
    assert_eq!(bank.len(), 5);
    assert_eq!(bank.frequencies(), freqs.to_vec());
    bank.process_samples::<Wrapping>(&sig);
    for (i, f) in freqs.iter().enumerate() {
        let weight = b(f.bits ^ 17);
        assert_eq!(bank.complex(i), reference(ResonatorConfig::new(*f, weight, weight), 17, &sig));
    }
}

#[test]
fn constants_are_the_numbers_they_stand_for() {
    assert_eq!(f32::from_bits(ZERO_BITS), 0.0);
    assert_eq!(f32::from_bits(ONE_BITS), 1.0);
    assert_eq!(f32::from_bits(MINUS_TWO_BITS), -2.0);
    assert_eq!(f32::from_bits(MINUS_ONE_BITS), -1.0);
    assert_eq!(f32::from_bits(MINUS_PI_BITS), -std::f32::consts::PI);
    assert_eq!((-0.0f32).to_bits(), MINUS_ZERO_BITS);
    for angle in [-1e-40f32, -1e-3, -1.5, -3.0, f32::from_bits(MINUS_PI_BITS - 1)] {
        assert!(angle < 0.0 && angle.sin() < 0.0 && angle.sin() >= -1.0);
    }
    assert_eq!(f32::from_bits(PI_BITS), std::f32::consts::PI);
    assert_eq!(f32::from_bits(INFINITY_BITS), f32::INFINITY);
    assert_eq!(f32::from_bits(INFINITY_BITS - 1), f32::MAX);
    assert_eq!(Lanes::splat(b(9)), Lanes { x0: b(9), x1: b(9), x2: b(9), x3: b(9) });
}

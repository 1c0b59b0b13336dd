use fbdelay::fixed::{clamp_full_scale, scale_amp, SCALE};
use fbdelay::ring::RingBuffer;
use fbdelay::wave::{Oscillator, WaveKind};
use fbdelay::envelope::Envelope;

#[test]
fn clamp_passes_and_limits() {
    assert_eq!(clamp_full_scale(0), 0);
    assert_eq!(clamp_full_scale(9999), 9999);
    assert_eq!(clamp_full_scale(-10000), -10000);
    assert_eq!(clamp_full_scale(10001), 10000);
    assert_eq!(clamp_full_scale(-20000), -10000);
}

#[test]
fn scale_amp_rounds_toward_zero_symmetrically() {
    assert_eq!(scale_amp(10000, 10000), 10000);
    assert_eq!(scale_amp(-10000, 10000), -10000);
    assert_eq!(scale_amp(9999, 9999), 9998);
    assert_eq!(scale_amp(-9999, 9999), -9998);
    assert_eq!(scale_amp(5, 5000), 2);
    assert_eq!(scale_amp(-5, 5000), -2);
    assert_eq!(scale_amp(7, 0), 0);
    assert_eq!(scale_amp(0, 7), 0);
}

#[test]
fn ring_buffer_evicts_oldest() {
    let mut rb = RingBuffer::new(3, 7);
    assert_eq!(rb.len(), 3);
    assert_eq!(rb.get(0), 7);
    assert_eq!(rb.get(2), 7);
    rb.push(1);
    assert_eq!(rb.get(0), 7);
    assert_eq!(rb.get(1), 7);
    assert_eq!(rb.get(2), 1);
    rb.push(2);
    rb.push(3);
    assert_eq!(rb.get(0), 1);
    assert_eq!(rb.get(1), 2);
    assert_eq!(rb.get(2), 3);
    rb.push(4);
    assert_eq!(rb.get(0), 2);
    assert_eq!(rb.get(2), 4);
}

#[test]
fn sine_period_sums_to_zero() {
    // 441 Hz at 44100 Hz: one full period is exactly 100 samples.
    let mut osc = Oscillator::new(WaveKind::Sine, 441, 44100, 0);
    let mut sum: i64 = 0;
    for _ in 0..100 {
        sum += osc.next();
    }
    assert_eq!(sum, 0);
}

#[test]
fn sine_starts_at_zero_and_peaks_at_full_scale() {
    let mut osc = Oscillator::new(WaveKind::Sine, 441, 44100, 0);
    let mut samples = Vec::new();
    for _ in 0..100 {
        samples.push(osc.next());
    }
    // Phase 0: sin(0) == 0.
    assert_eq!(samples[0], 0);
    // Sample 25 sits at a quarter period: the crest, exactly full scale.
    assert_eq!(samples[25], 10000);
    // Sample 75 sits at three quarters: the trough.
    assert_eq!(samples[75], -10000);
    // Antisymmetry of the two half periods, sample by sample.
    for k in 0..50 {
        assert_eq!(samples[k + 50], -samples[k]);
    }
}

#[test]
fn square_splits_at_half_duty() {
    let mut osc = Oscillator::new(WaveKind::Square, 441, 44100, 0);
    let mut samples = Vec::new();
    for _ in 0..100 {
        samples.push(osc.next());
    }
    for k in 0..50 {
        assert_eq!(samples[k], 10000);
        assert_eq!(samples[k + 50], -10000);
    }
}

#[test]
fn saw_ramps_from_negative_full_scale() {
    let mut osc = Oscillator::new(WaveKind::Saw, 441, 44100, 0);
    let mut samples = Vec::new();
    for _ in 0..100 {
        samples.push(osc.next());
    }
    // Start of the ramp.
    assert_eq!(samples[0], -10000);
    // Mid period: phase r/2, exactly the zero crossing.
    assert_eq!(samples[50], 0);
    // Monotone ramp throughout one period.
    for k in 1..100 {
        assert!(samples[k] > samples[k - 1]);
    }
}

#[test]
fn noise_is_deterministic_per_seed_and_in_range() {
    let mut a = Oscillator::new(WaveKind::Noise, 1, 44100, 12345);
    let mut b = Oscillator::new(WaveKind::Noise, 1, 44100, 12345);
    let mut c = Oscillator::new(WaveKind::Noise, 1, 44100, 54321);
    let mut differs = false;
    for _ in 0..64 {
        let x = a.next();
        let y = b.next();
        let z = c.next();
        assert_eq!(x, y);
        assert!(-10000 <= x && x <= 10000);
        if x != z {
            differs = true;
        }
    }
    assert!(differs);
}

#[test]
fn envelope_unit_gain_is_identity() {
    // Gain multiplier 1.0 every step: the identity transform on amplitude.
    let mut env = Envelope::new(SCALE);
    let inputs = [0i64, 1, -1, 9999, -10000, 10000, 123, -456];
    for _ in 0..4 {
        for &x in inputs.iter() {
            assert_eq!(env.step(x), x);
        }
    }
    assert_eq!(env.gain, SCALE);
}

#[test]
fn envelope_decays_exponentially() {
    let mut env = Envelope::new(9999);
    // First pull: gain decays to 9999 before it is applied.
    assert_eq!(env.step(10000), 9999);
    // Second pull: gain decays to 9999 * 9999 / 10000 = 9998.
    assert_eq!(env.step(10000), 9998);
    assert_eq!(env.gain, 9998);
}

#[test]
fn envelopes_do_not_share_state() {
    let mut a = Envelope::new(5000);
    let mut b = Envelope::new(9999);
    assert_eq!(a.step(10000), 5000);
    // `b` is untouched by `a`'s decay.
    assert_eq!(b.step(10000), 9999);
    assert_eq!(a.step(10000), 2500);
    assert_eq!(b.gain, 9999);
}

use fbdelay::fixed::{scale_amp, SCALE};
use fbdelay::wave::{Oscillator, WaveKind};
use fbdelay::envelope::Envelope;
use fbdelay::sequencer::{Segment, Sequencer};
use fbdelay::delay::{ConfigError, FeedbackDelay};
use fbdelay::pipeline::{standard_program, Pipeline};

fn constant_tone(len: u64) -> Segment {
    // A square wave at 1 Hz stays at +SCALE for the first 22050 samples,
    // and a unit-gain envelope passes it through unchanged.
    Segment::Tone {
        osc: Oscillator::new(WaveKind::Square, 1, 44100, 0),
        env: Envelope::new(SCALE),
        len,
    }
}

#[test]
fn sequencer_concatenates_exact_lengths() {
    // Segments of lengths [100, 50, 200]: exactly 350 frames, with the
    // boundary between the first and second segment at frame 100.
    let segs = vec![
        constant_tone(100),
        Segment::Silence { len: 50 },
        constant_tone(200),
    ];
    let mut seq = Sequencer::new(segs);
    let mut frames = Vec::new();
    while let Some(x) = seq.next() {
        frames.push(x);
    }
    assert_eq!(frames.len(), 350);
    assert!(seq.next().is_none());
    // Frames 0..100 come from the tone, 100..150 from the silence.
    assert_eq!(frames[99], 10000);
    assert_eq!(frames[100], 0);
    assert_eq!(frames[149], 0);
    assert_eq!(frames[150], 10000);
}

#[test]
fn sequencer_skips_zero_length_segments() {
    let segs = vec![
        constant_tone(0),
        Segment::Silence { len: 0 },
        constant_tone(3),
        Segment::Silence { len: 0 },
    ];
    let mut seq = Sequencer::new(segs);
    assert_eq!(seq.next(), Some(10000));
    assert_eq!(seq.next(), Some(10000));
    assert_eq!(seq.next(), Some(10000));
    assert_eq!(seq.next(), None);
}

#[test]
fn delay_construction_validates_configuration() {
    assert_eq!(
        FeedbackDelay::new(-1, 5000, 10, 100).err(),
        Some(ConfigError::InvalidFeedback)
    );
    assert_eq!(
        FeedbackDelay::new(10001, 5000, 10, 100).err(),
        Some(ConfigError::InvalidFeedback)
    );
    assert_eq!(
        FeedbackDelay::new(5000, -1, 10, 100).err(),
        Some(ConfigError::InvalidWetMix)
    );
    assert_eq!(
        FeedbackDelay::new(5000, 10001, 10, 100).err(),
        Some(ConfigError::InvalidWetMix)
    );
    assert_eq!(
        FeedbackDelay::new(5000, 5000, 0, 100).err(),
        Some(ConfigError::InvalidDelay)
    );
    assert_eq!(
        FeedbackDelay::new(5000, 5000, 100, 100).err(),
        Some(ConfigError::InvalidDelay)
    );
    assert_eq!(
        FeedbackDelay::new(5000, 5000, 101, 100).err(),
        Some(ConfigError::InvalidDelay)
    );
    assert!(FeedbackDelay::new(10000, 10000, 99, 100).is_ok());
}

#[test]
fn zero_feedback_emits_only_the_dry_signal() {
    // With feedback 0 nothing recirculates: the wet tap scales the
    // delayed frame by the zero feedback coefficient, so every output is
    // exactly the dry-scaled input (the spec's wet/dry convention: dry
    // scales the live frame, wet scales the feedback-scaled delayed one).
    let mut fdl = FeedbackDelay::new(0, 5000, 3, 8).unwrap();
    let inputs = [10000i64, -4444, 0, 123, 0, 0, 0, 0];
    for &x in inputs.iter() {
        let out = fdl.next(x);
        assert_eq!(out, scale_amp(x, 5000));
    }
}

#[test]
fn impulse_echoes_decay_with_ratio_feedback() {
    // Unit impulse into feedback 0.5, wet 1.0 (dry 0), delay 2: echoes at
    // t = 2, 4, 6, 8, each exactly half the previous one.
    let mut fdl = FeedbackDelay::new(5000, 10000, 2, 8).unwrap();
    let mut outs = Vec::new();
    outs.push(fdl.next(10000));
    for _ in 0..8 {
        outs.push(fdl.next(0));
    }
    assert_eq!(outs, vec![0, 0, 5000, 0, 2500, 0, 1250, 0, 625]);
}

#[test]
fn sustained_echo_at_unit_feedback_stays_clamped() {
    // feedback 1.0, wet 1.0, delay 1: the stored frame saturates at full
    // scale instead of growing without bound.
    let mut fdl = FeedbackDelay::new(10000, 10000, 1, 4).unwrap();
    assert_eq!(fdl.next(10000), 0);
    // The delayed tap now replays the stored full-scale frame forever.
    for _ in 0..8 {
        assert_eq!(fdl.next(10000), 10000);
    }
}

#[test]
fn end_to_end_sine_segment_through_delay() {
    // A 2205-frame (50 ms at 44100 Hz) sine segment at 440 Hz with
    // envelope decay 0.9999 per sample, into a delay line with
    // delay 8820, feedback 0.5, wet 0.5.
    let segs = vec![Segment::Tone {
        osc: Oscillator::new(WaveKind::Sine, 440, 44100, 0),
        env: Envelope::new(9999),
        len: 2205,
    }];
    let seq = Sequencer::new(segs);
    let fdl = FeedbackDelay::new(5000, 5000, 8820, 44100).unwrap();
    let mut pipe = Pipeline::new(seq, fdl);
    let out = pipe.drain();
    // Exactly the declared frame count: not more, not fewer.
    assert_eq!(out.len(), 2205);
    assert!(pipe.next().is_none());

    // Every output precedes the delay span, so it carries only the
    // dry-scaled direct signal: the delayed tap is still silence.
    let mut osc = Oscillator::new(WaveKind::Sine, 440, 44100, 0);
    let mut env = Envelope::new(9999);
    for t in 0..2205 {
        let raw = osc.next();
        let enveloped = env.step(raw);
        assert_eq!(out[t], scale_amp(enveloped, 5000));
    }
}

#[test]
fn standard_program_drains_to_declared_total() {
    let segs = standard_program(440, 44100, 9999, 1);
    assert_eq!(segs.len(), 8);
    let seq = Sequencer::new(segs);
    let fdl = FeedbackDelay::new(5000, 5000, 8820, 44100).unwrap();
    let mut pipe = Pipeline::new(seq, fdl);
    let out = pipe.drain();
    // Eight quarter-second segments at 44100 Hz.
    assert_eq!(out.len(), 8 * 11025);
    for &x in out.iter() {
        assert!(-10000 <= x && x <= 10000);
    }
}

#[test]
fn process_block_matches_per_pull() {
    let mut block = FeedbackDelay::new(7000, 3000, 2, 6).unwrap();
    let mut pull = FeedbackDelay::new(7000, 3000, 2, 6).unwrap();
    let inputs = vec![10000i64, -2500, 0, 4444, -10000, 0, 1, 2, 3];
    let outs = block.process(&inputs);
    assert_eq!(outs.len(), inputs.len());
    for (i, &x) in inputs.iter().enumerate() {
        assert_eq!(outs[i], pull.next(x));
    }
}

//! Mixer/output stage.
//!
//! A `Pipeline` pulls one frame per call from its segment sequencer,
//! passes it through the feedback delay line, and emits the resulting
//! wet/dry mix. The delay line's delayed tap replays the very frame
//! sequence the sequencer produced — one stream, offset in time — never an
//! independently advancing copy. The pipeline is exhausted exactly when
//! the sequencer's declared frames run out: no frame is dropped and none
//! is invented, so the output length equals the sequencer's declared
//! total. Samples stay fixed-point all the way through; conversion to a
//! device's native format belongs to the caller, on emitted frames only.

use vstd::prelude::*;
use crate::fixed::{SCALE, in_full_scale};
use crate::wave::{Oscillator, WaveKind, MAX_HZ};
use crate::envelope::Envelope;
use crate::sequencer::{Segment, Sequencer, total_len};
use crate::delay::{FeedbackDelay, ConfigError};

verus! {

pub struct Pipeline {
    pub seq: Sequencer,
    pub fdl: FeedbackDelay,
}

impl Pipeline {
    pub open spec fn wf(self) -> bool {
        &&& self.seq.wf()
        &&& self.fdl.wf()
    }

    /// Frames still owed before exhaustion: exactly what the sequencer
    /// still owes.
    pub open spec fn remaining(self) -> int {
        self.seq.remaining()
    }

    /// Wire a sequencer into a delay line.
    pub fn new(seq: Sequencer, fdl: FeedbackDelay) -> (p: Pipeline)
        requires
            seq.wf(),
            fdl.wf(),
        ensures
            p.wf(),
            p.seq == seq,
            p.fdl == fdl,
    {
        Pipeline { seq, fdl }
    }

    /// Whether any frames are still owed.
    pub fn has_more(&self) -> (b: bool)
        requires
            self.wf(),
        ensures
            b <==> self.remaining() > 0,
            self.remaining() >= 0,
    {
        self.seq.has_more()
    }

    /// Emit the next mixed frame, or report exhaustion. The emitted
    /// sample is the delay line's wet/dry mix of the sequencer's current
    /// frame, and both components advance by exactly one pull.
    pub fn next(&mut self) -> (r: Option<i64>)
        requires
            old(self).wf(),
        ensures
            final(self).wf(),
            r is Some <==> old(self).remaining() > 0,
            r is None ==> *final(self) == *old(self),
            r is Some ==> {
                let f = old(self).seq.segments@[old(self).seq.idx as int].out_spec();
                &&& final(self).remaining() == old(self).remaining() - 1
                &&& r->Some_0 as int == old(self).fdl.model().out(f)
                &&& in_full_scale(r->Some_0 as int)
                &&& final(self).fdl.model() == old(self).fdl.model().step(f)
            },
    {
        match self.seq.next() {
            None => None,
            Some(f) => Some(self.fdl.next(f)),
        }
    }

    /// Drain the pipeline to a vector: every frame until exhaustion, in
    /// order. The drained length equals exactly the number of frames the
    /// sequencer still owed — not more, not fewer — and every sample is in
    /// full scale.
    pub fn drain(&mut self) -> (out: Vec<i64>)
        requires
            old(self).wf(),
        ensures
            final(self).wf(),
            out@.len() == old(self).remaining(),
            final(self).remaining() == 0,
            forall|i: int| 0 <= i < out@.len() ==> in_full_scale(#[trigger] out@[i] as int),
    {
        proof {
            old(self).seq.lemma_remaining_nonneg();
        }
        let mut out: Vec<i64> = Vec::new();
        while self.has_more()
            invariant
                self.wf(),
                out@.len() + self.remaining() == old(self).remaining(),
                self.remaining() >= 0,
                forall|i: int| 0 <= i < out@.len() ==> in_full_scale(#[trigger] out@[i] as int),
            decreases self.remaining(),
        {
            match self.next() {
                Some(x) => out.push(x),
                None => {
                    proof {
                        assert(false);
                    }
                },
            }
        }
        proof {
            self.seq.lemma_remaining_nonneg();
        }
        out
    }
}

/// The standard eight-segment program: each waveform in turn — sine, saw,
/// square, white noise — held for a quarter second at the given rate with
/// an exponentially decaying envelope, each followed by an equal run of
/// silence.
pub fn standard_program(freq: u32, rate: u32, decay: i64, seed: u64) -> (segs: Vec<Segment>)
    requires
        1 <= freq <= MAX_HZ,
        1 <= rate <= MAX_HZ,
        0 <= decay <= SCALE,
    ensures
        segs@.len() == 8,
        forall|i: int| 0 <= i < segs@.len() ==> (#[trigger] segs@[i]).wf(),
        total_len(segs@) == 8 * ((rate / 4) as int),
{
    let len: u64 = (rate / 4) as u64;
    let mut segs: Vec<Segment> = Vec::new();
    segs.push(
        Segment::Tone {
            osc: Oscillator::new(WaveKind::Sine, freq, rate, seed),
            env: Envelope::new(decay),
            len,
        },
    );
    segs.push(Segment::Silence { len });
    segs.push(
        Segment::Tone {
            osc: Oscillator::new(WaveKind::Saw, freq, rate, seed),
            env: Envelope::new(decay),
            len,
        },
    );
    segs.push(Segment::Silence { len });
    segs.push(
        Segment::Tone {
            osc: Oscillator::new(WaveKind::Square, freq, rate, seed),
            env: Envelope::new(decay),
            len,
        },
    );
    segs.push(Segment::Silence { len });
    segs.push(
        Segment::Tone {
            osc: Oscillator::new(WaveKind::Noise, freq, rate, seed),
            env: Envelope::new(decay),
            len,
        },
    );
    segs.push(Segment::Silence { len });
    proof {
        reveal_with_fuel(total_len, 9);
        assert(segs@.drop_first().drop_first().drop_first().drop_first().drop_first().drop_first().drop_first().drop_first()
            =~= Seq::<Segment>::empty());
    }
    segs
}

} // verus!

//! Envelope/gain modulator.
//!
//! An `Envelope` multiplies each sample it is handed by its current gain,
//! then lets the gain decay by a fixed per-sample multiplier (for example
//! an exponential decay toward silence). The gain state is owned by the
//! instance: independently constructed modulators never share state, so
//! one envelope's decay cannot leak into another's.

use vstd::prelude::*;
use crate::fixed::{
    SCALE,
    in_full_scale,
    scale_amp_spec,
    scale_amp,
    lemma_scale_amp_identity,
    lemma_scale_amp_le_sample,
};

verus! {

#[derive(Clone, Copy)]
pub struct Envelope {
    /// Current gain, a fraction of `SCALE` in `[0, SCALE]`.
    pub gain: i64,
    /// Per-sample decay multiplier, a fraction of `SCALE` in `[0, SCALE]`.
    pub decay: i64,
}

impl Envelope {
    pub open spec fn wf(self) -> bool {
        &&& 0 <= self.gain <= SCALE
        &&& 0 <= self.decay <= SCALE
    }

    /// The gain applied by the next pull: the decayed gain.
    pub open spec fn gain_spec(self) -> int {
        scale_amp_spec(self.gain as int, self.decay as int)
    }

    /// The state after one pull.
    pub open spec fn step_spec(self) -> Envelope {
        Envelope { gain: self.gain_spec() as i64, decay: self.decay }
    }

    /// The sample emitted for input `x` by the next pull.
    pub open spec fn out_spec(self, x: int) -> int {
        scale_amp_spec(x, self.gain_spec())
    }

    /// A fresh envelope at unit gain with the given per-sample decay.
    pub fn new(decay: i64) -> (e: Envelope)
        requires
            0 <= decay <= SCALE,
        ensures
            e.wf(),
            e == (Envelope { gain: SCALE, decay }),
    {
        Envelope { gain: SCALE, decay }
    }

    /// Scale one sample by the decayed gain and keep the decayed gain.
    pub fn step(&mut self, x: i64) -> (y: i64)
        requires
            old(self).wf(),
            in_full_scale(x as int),
        ensures
            final(self).wf(),
            *final(self) == old(self).step_spec(),
            y as int == old(self).out_spec(x as int),
            in_full_scale(y as int),
    {
        proof {
            lemma_scale_amp_le_sample(self.gain as int, self.decay as int);
        }
        let g = scale_amp(self.gain, self.decay);
        self.gain = g;
        scale_amp(x, g)
    }
}

/// An envelope whose decay multiplier is the unit gain is the identity
/// transform on amplitude: starting from unit gain, every step emits its
/// input unchanged and leaves the state as it was, so the same holds for
/// every later step as well.
pub proof fn lemma_envelope_unit_identity(e: Envelope, x: int)
    requires
        e.wf(),
        e.gain == SCALE,
        e.decay == SCALE,
        in_full_scale(x),
    ensures
        e.step_spec() == e,
        e.out_spec(x) == x,
{
    lemma_scale_amp_identity(e.gain as int);
    lemma_scale_amp_identity(x);
}

} // verus!

//! Feedback delay line.
//!
//! A `FeedbackDelay` owns a fixed-capacity ring buffer of the most recent
//! frames it stored. On each pull it takes the upstream signal's current
//! frame `f` as an explicit argument, reads the frame it stored
//! `delay_frames` pulls ago (silence while the buffer has not been written
//! that far back), scales it by the feedback coefficient, stores
//! `f + feedback_frame` (clamped to full scale) so the echo recirculates,
//! and emits the dry-scaled input plus the wet-scaled feedback frame.
//! Construction validates the coefficients: feedback and wet mix must be
//! fractions of `SCALE` in `[0, 1]`, and the delay must be at least one
//! frame and strictly below the buffer capacity; anything else is a
//! configuration error, reported at construction and never mid-stream.
//! With feedback strictly below unit gain the recirculated energy decays
//! geometrically; at exactly unit gain the echo is sustained, which is
//! intentional, and the full-scale clamp on stored frames keeps even that
//! case bounded.

use vstd::prelude::*;
use crate::fixed::{
    SCALE,
    in_full_scale,
    clamp_spec,
    clamp_full_scale,
    scale_amp_spec,
    scale_amp,
    lemma_scale_amp_le_sample,
    lemma_scale_amp_le_gain,
    lemma_scale_amp_zero_gain,
    lemma_scale_amp_zero_sample,
    lemma_scale_amp_strict_decay,
};
use crate::ring::RingBuffer;

verus! {

/// A rejected construction parameter. Configuration is validated when a
/// component is built and never fails mid-stream.
#[derive(Clone, Copy, PartialEq, Eq, Structural, Debug)]
pub enum ConfigError {
    /// The feedback coefficient lies outside `[0, SCALE]`.
    InvalidFeedback,
    /// The wet mix lies outside `[0, SCALE]`.
    InvalidWetMix,
    /// The delay is zero frames, or not strictly below the capacity.
    InvalidDelay,
}

/// The mathematical state of a delay line: the stored frames (oldest
/// first) and the fixed coefficients, all as plain integers.
pub struct DelayModel {
    pub buf: Seq<int>,
    pub feedback: int,
    pub wet: int,
    pub delay: int,
}

impl DelayModel {
    pub open spec fn wf(self) -> bool {
        &&& 2 <= self.buf.len()
        &&& 1 <= self.delay < self.buf.len()
        &&& 0 <= self.feedback <= SCALE as int
        &&& 0 <= self.wet <= SCALE as int
        &&& forall|i: int| 0 <= i < self.buf.len() ==> in_full_scale(#[trigger] self.buf[i])
    }

    /// The dry mix is the complement of the wet mix.
    pub open spec fn dry(self) -> int {
        SCALE as int - self.wet
    }

    /// The frame stored `delay` pulls ago.
    pub open spec fn delayed(self) -> int {
        self.buf[self.buf.len() - self.delay]
    }

    /// The delayed frame scaled by the feedback coefficient.
    pub open spec fn feedback_frame(self) -> int {
        scale_amp_spec(self.delayed(), self.feedback)
    }

    /// What one pull with upstream frame `f` stores: the input plus the
    /// feedback frame, clamped to full scale.
    pub open spec fn stored(self, f: int) -> int {
        clamp_spec(f + self.feedback_frame())
    }

    /// What one pull with upstream frame `f` emits: dry-scaled input plus
    /// wet-scaled feedback frame.
    pub open spec fn out(self, f: int) -> int {
        scale_amp_spec(f, self.dry()) + scale_amp_spec(self.feedback_frame(), self.wet)
    }

    /// The state after one pull: the oldest frame is evicted and the
    /// combined frame is stored.
    pub open spec fn step(self, f: int) -> DelayModel {
        DelayModel { buf: self.buf.subrange(1, self.buf.len() as int).push(self.stored(f)), ..self }
    }
}

/// A feedback delay line over a fixed-capacity ring buffer, with its
/// coefficients as fixed-point fractions of `SCALE`.
pub struct FeedbackDelay {
    pub buf: RingBuffer,
    pub feedback: i64,
    pub wet: i64,
    pub dry: i64,
    pub delay_frames: usize,
}

impl FeedbackDelay {
    /// The mathematical state this value stands for.
    pub open spec fn model(self) -> DelayModel {
        DelayModel {
            buf: self.buf.contents(),
            feedback: self.feedback as int,
            wet: self.wet as int,
            delay: self.delay_frames as int,
        }
    }

    pub open spec fn wf(self) -> bool {
        &&& self.buf.wf()
        &&& self.model().wf()
        &&& self.dry == SCALE as int - self.wet
    }

    /// Build a delay line with a silent buffer of `capacity` frames.
    /// Succeeds exactly when `feedback` and `wet` are fractions of `SCALE`
    /// in `[0, 1]` and `1 <= delay_frames < capacity`; otherwise reports
    /// which parameter was rejected.
    pub fn new(feedback: i64, wet: i64, delay_frames: usize, capacity: usize) -> (r: Result<
        FeedbackDelay,
        ConfigError,
    >)
        ensures
            r is Ok <==> (0 <= feedback <= SCALE && 0 <= wet <= SCALE && 1 <= delay_frames
                && delay_frames < capacity),
            !(0 <= feedback <= SCALE) ==> r == Err::<FeedbackDelay, ConfigError>(
                ConfigError::InvalidFeedback,
            ),
            (0 <= feedback <= SCALE && !(0 <= wet <= SCALE)) ==> r == Err::<
                FeedbackDelay,
                ConfigError,
            >(ConfigError::InvalidWetMix),
            (0 <= feedback <= SCALE && 0 <= wet <= SCALE && !(1 <= delay_frames && delay_frames
                < capacity)) ==> r == Err::<FeedbackDelay, ConfigError>(ConfigError::InvalidDelay),
            r is Ok ==> {
                let d = r->Ok_0;
                &&& d.wf()
                &&& d.feedback == feedback
                &&& d.wet == wet
                &&& d.dry == SCALE - wet
                &&& d.delay_frames == delay_frames
                &&& d.model().buf.len() == capacity
                &&& forall|i: int| 0 <= i < capacity ==> d.model().buf[i] == 0
            },
    {
        if feedback < 0 || feedback > SCALE {
            return Err(ConfigError::InvalidFeedback);
        }
        if wet < 0 || wet > SCALE {
            return Err(ConfigError::InvalidWetMix);
        }
        if delay_frames == 0 || delay_frames >= capacity {
            return Err(ConfigError::InvalidDelay);
        }
        let buf = RingBuffer::new(capacity, 0);
        Ok(FeedbackDelay { buf, feedback, wet, dry: SCALE - wet, delay_frames })
    }

    /// One pull: mix and store as `DelayModel::step` and `DelayModel::out`
    /// describe, in constant time and without allocating.
    pub fn next(&mut self, f: i64) -> (out: i64)
        requires
            old(self).wf(),
            in_full_scale(f as int),
        ensures
            final(self).wf(),
            final(self).model() == old(self).model().step(f as int),
            final(self).dry == old(self).dry,
            out as int == old(self).model().out(f as int),
            in_full_scale(out as int),
    {
        let n = self.buf.len();
        let delayed = self.buf.get(n - self.delay_frames);
        proof {
            assert(in_full_scale(delayed as int));
            lemma_scale_amp_le_gain(delayed as int, self.feedback as int);
        }
        let fbf = scale_amp(delayed, self.feedback);
        let store = clamp_full_scale(f + fbf);
        let ghost pre = self.model();
        self.buf.push(store);
        let out = scale_amp(f, self.dry) + scale_amp(fbf, self.wet);
        proof {
            assert(self.model().buf =~= pre.step(f as int).buf);
            assert forall|i: int| 0 <= i < self.model().buf.len() implies in_full_scale(
                #[trigger] self.model().buf[i],
            ) by {
                if i < self.model().buf.len() - 1 {
                    assert(self.model().buf[i] == pre.buf[i + 1]);
                }
            }
        }
        out
    }

    /// Drive a whole input block through, one pull per sample. The
    /// outputs and the final state are exactly those of the run model,
    /// so the run-level laws — plain delay at zero feedback, the impulse
    /// response with its decaying echoes, dry-only output before the
    /// delay fills — hold of what this function returns.
    pub fn process(&mut self, inputs: &Vec<i64>) -> (out: Vec<i64>)
        requires
            old(self).wf(),
            forall|i: int| 0 <= i < inputs@.len() ==> in_full_scale(#[trigger] inputs@[i] as int),
        ensures
            final(self).wf(),
            final(self).model() == run_state(old(self).model(), ints_of(inputs@)),
            out@.len() == inputs@.len(),
            ints_of(out@) == run_outputs(old(self).model(), ints_of(inputs@)),
    {
        let ghost m0 = self.model();
        let ghost all = ints_of(inputs@);
        let mut out: Vec<i64> = Vec::new();
        let n = inputs.len();
        let mut k: usize = 0;
        proof {
            assert(all.take(0) =~= Seq::<int>::empty());
            assert(ints_of(out@) =~= Seq::<int>::empty());
        }
        while k < n
            invariant
                self.wf(),
                k <= n,
                n == inputs@.len(),
                m0.wf(),
                all == ints_of(inputs@),
                forall|i: int| 0 <= i < inputs@.len() ==> in_full_scale(
                    #[trigger] inputs@[i] as int,
                ),
                self.model() == run_state(m0, all.take(k as int)),
                out@.len() == k,
                ints_of(out@) == run_outputs(m0, all.take(k as int)),
            decreases n - k,
        {
            let ghost pre = all.take(k as int);
            let x = inputs[k];
            let y = self.next(x);
            out.push(y);
            k = k + 1;
            proof {
                assert(all.take(k as int).drop_last() =~= pre);
                assert(all.take(k as int).last() == x as int);
                assert(run_state(m0, all.take(k as int)) == run_state(m0, pre).step(x as int));
                assert(ints_of(out@) =~= run_outputs(m0, pre).push(run_state(m0, pre).out(
                    x as int,
                )));
            }
        }
        proof {
            assert(all.take(n as int) =~= all);
        }
        out
    }
}

/// A buffer holding only silence, as a fresh delay line's does.
pub open spec fn all_silent(m: DelayModel) -> bool {
    forall|i: int| 0 <= i < m.buf.len() ==> #[trigger] m.buf[i] == 0
}

/// A sample sequence as mathematical integers.
pub open spec fn ints_of(s: Seq<i64>) -> Seq<int> {
    s.map_values(|x: i64| x as int)
}

/// The state after driving `inputs` through, one pull per sample.
pub open spec fn run_state(m: DelayModel, inputs: Seq<int>) -> DelayModel
    decreases inputs.len(),
{
    if inputs.len() == 0 {
        m
    } else {
        run_state(m, inputs.drop_last()).step(inputs.last())
    }
}

/// The outputs of driving `inputs` through, one pull per sample.
pub open spec fn run_outputs(m: DelayModel, inputs: Seq<int>) -> Seq<int>
    decreases inputs.len(),
{
    if inputs.len() == 0 {
        Seq::empty()
    } else {
        run_outputs(m, inputs.drop_last()).push(
            run_state(m, inputs.drop_last()).out(inputs.last()),
        )
    }
}

/// The frame a fresh run stores at pull `s`, as a direct recurrence on the
/// inputs alone: the input plus the feedback-scaled frame stored `nd`
/// pulls earlier, clamped to full scale; silence before the run began.
pub open spec fn hist(inputs: Seq<int>, fb: int, nd: int, s: int) -> int
    decreases s,
{
    if s < 0 {
        0
    } else {
        clamp_spec(
            inputs[s] + scale_amp_spec(
                if 1 <= nd <= s {
                    hist(inputs, fb, nd, s - nd)
                } else {
                    0
                },
                fb,
            ),
        )
    }
}

/// The recurrence only reads inputs up to `s`.
proof fn lemma_hist_agree(a: Seq<int>, b: Seq<int>, fb: int, nd: int, s: int)
    requires
        forall|j: int| 0 <= j <= s ==> a[j] == b[j],
    ensures
        hist(a, fb, nd, s) == hist(b, fb, nd, s),
    decreases s,
{
    if s >= 0 && 1 <= nd <= s {
        lemma_hist_agree(a, b, fb, nd, s - nd);
    }
}

/// Driving any input sequence through a fresh delay line: after `t` pulls
/// the buffer holds the most recent stored frames of the recurrence
/// `hist`, and every output mixes the dry-scaled input with the
/// wet-scaled, feedback-scaled frame stored `delay` pulls earlier.
pub proof fn lemma_run_response(m: DelayModel, inputs: Seq<int>)
    requires
        m.wf(),
        all_silent(m),
    ensures
        run_state(m, inputs).wf(),
        run_state(m, inputs).buf.len() == m.buf.len(),
        run_state(m, inputs).feedback == m.feedback,
        run_state(m, inputs).wet == m.wet,
        run_state(m, inputs).delay == m.delay,
        forall|i: int|
            0 <= i < m.buf.len() ==> run_state(m, inputs).buf[i] == hist(
                inputs,
                m.feedback,
                m.delay,
                inputs.len() - m.buf.len() + i,
            ),
        run_outputs(m, inputs).len() == inputs.len(),
        forall|t: int|
            0 <= t < inputs.len() ==> run_outputs(m, inputs)[t] == scale_amp_spec(
                inputs[t],
                m.dry(),
            ) + scale_amp_spec(
                scale_amp_spec(hist(inputs, m.feedback, m.delay, t - m.delay), m.feedback),
                m.wet,
            ),
    decreases inputs.len(),
{
    let fb = m.feedback;
    let nd = m.delay;
    let cap = m.buf.len() as int;
    if inputs.len() > 0 {
        let pre = inputs.drop_last();
        let x = inputs.last();
        let t = pre.len() as int;
        lemma_run_response(m, pre);
        let sp = run_state(m, pre);
        let sq = run_state(m, inputs);
        assert(sq == sp.step(x));
        assert forall|s: int| s <= t - 1 implies hist(pre, fb, nd, s) == hist(
            inputs,
            fb,
            nd,
            s,
        ) by {
            lemma_hist_agree(pre, inputs, fb, nd, s);
        }
        assert(sp.delayed() == hist(inputs, fb, nd, t - nd)) by {
            assert(sp.buf[cap - nd] == hist(pre, fb, nd, t - cap + (cap - nd)));
        }
        assert(inputs[t] == x);
        assert(sp.stored(x) == hist(inputs, fb, nd, t));
        assert(in_full_scale(sp.stored(x)));
        assert forall|i: int| 0 <= i < cap implies sq.buf[i] == hist(
            inputs,
            fb,
            nd,
            inputs.len() - cap + i,
        ) by {
            if i < cap - 1 {
                assert(sq.buf[i] == sp.buf[i + 1]);
                assert(sp.buf[i + 1] == hist(pre, fb, nd, t - cap + i + 1));
            } else {
                assert(sq.buf[i] == sp.stored(x));
            }
        }
        assert(sq.wf()) by {
            assert forall|i: int| 0 <= i < sq.buf.len() implies in_full_scale(
                #[trigger] sq.buf[i],
            ) by {
                if i < cap - 1 {
                    assert(sq.buf[i] == sp.buf[i + 1]);
                }
            }
        }
        assert(run_outputs(m, inputs) == run_outputs(m, pre).push(sp.out(x)));
        assert(sp.out(x) == scale_amp_spec(x, m.dry()) + scale_amp_spec(
            scale_amp_spec(hist(inputs, fb, nd, t - nd), fb),
            m.wet,
        ));
        assert forall|t2: int| 0 <= t2 < inputs.len() implies run_outputs(m, inputs)[t2]
            == scale_amp_spec(inputs[t2], m.dry()) + scale_amp_spec(
            scale_amp_spec(hist(inputs, fb, nd, t2 - nd), fb),
            m.wet,
        ) by {
            if t2 < t {
                assert(run_outputs(m, inputs)[t2] == run_outputs(m, pre)[t2]);
                assert(pre[t2] == inputs[t2]);
                assert(hist(pre, fb, nd, t2 - nd) == hist(inputs, fb, nd, t2 - nd));
            }
        }
    }
}

/// With the feedback coefficient zero nothing recirculates: every stored
/// frame is exactly the raw input, and every output is exactly the
/// dry-scaled input — the wet tap carries the delayed frame scaled by the
/// zero feedback, which is silence. Restricted to a zero wet mix this is
/// the classical plain-delay equation
/// `output[t] == dry*input[t] + wet*delayed_input[t - delay]`; with a
/// nonzero wet mix that equation does not hold here, because this line
/// scales the delayed tap by the feedback coefficient before the wet mix.
pub proof fn lemma_zero_feedback_plain(m: DelayModel, inputs: Seq<int>)
    requires
        m.wf(),
        all_silent(m),
        m.feedback == 0,
        forall|t: int| 0 <= t < inputs.len() ==> in_full_scale(#[trigger] inputs[t]),
    ensures
        forall|s: int| 0 <= s < inputs.len() ==> hist(inputs, 0, m.delay, s) == inputs[s],
        forall|t: int|
            0 <= t < inputs.len() ==> run_outputs(m, inputs)[t] == scale_amp_spec(
                inputs[t],
                m.dry(),
            ),
        m.wet == 0 ==> forall|t: int|
            0 <= t < inputs.len() ==> run_outputs(m, inputs)[t] == scale_amp_spec(
                inputs[t],
                m.dry(),
            ) + scale_amp_spec(
                if t >= m.delay {
                    inputs[t - m.delay]
                } else {
                    0
                },
                m.wet,
            ),
{
    lemma_run_response(m, inputs);
    assert forall|s: int| 0 <= s < inputs.len() implies hist(inputs, 0, m.delay, s)
        == inputs[s] by {
        lemma_scale_amp_zero_gain(
            if 1 <= m.delay <= s {
                hist(inputs, 0, m.delay, s - m.delay)
            } else {
                0
            },
        );
    }
    assert forall|t: int| 0 <= t < inputs.len() implies run_outputs(m, inputs)[t]
        == scale_amp_spec(inputs[t], m.dry()) by {
        lemma_scale_amp_zero_gain(hist(inputs, 0, m.delay, t - m.delay));
        lemma_scale_amp_zero_sample(m.wet);
    }
    if m.wet == 0 {
        assert forall|t: int| 0 <= t < inputs.len() implies run_outputs(m, inputs)[t]
            == scale_amp_spec(inputs[t], m.dry()) + scale_amp_spec(
            if t >= m.delay {
                inputs[t - m.delay]
            } else {
                0
            },
            m.wet,
        ) by {
            lemma_scale_amp_zero_gain(
                if t >= m.delay {
                    inputs[t - m.delay]
                } else {
                    0
                },
            );
        }
    }
}

/// A unit impulse of amplitude `amp` at pull zero, then silence.
pub open spec fn impulse(amp: int, len: nat) -> Seq<int> {
    Seq::new(len, |t: int| if t == 0 { amp } else { 0 })
}

/// The amplitude of the k-th recirculated echo: the impulse amplitude
/// scaled k times over by the feedback coefficient.
pub open spec fn echo_amp(amp: int, fb: int, k: nat) -> int
    decreases k,
{
    if k == 0 {
        amp
    } else {
        scale_amp_spec(echo_amp(amp, fb, (k - 1) as nat), fb)
    }
}

/// Echo amplitudes never grow: each is at most the one before it.
pub proof fn lemma_echo_amp_bounds(amp: int, fb: int, k: nat)
    requires
        0 <= amp <= SCALE as int,
        0 <= fb <= SCALE as int,
    ensures
        0 <= echo_amp(amp, fb, k) <= amp,
        k > 0 ==> echo_amp(amp, fb, k) <= echo_amp(amp, fb, (k - 1) as nat),
    decreases k,
{
    if k > 0 {
        lemma_echo_amp_bounds(amp, fb, (k - 1) as nat);
        lemma_scale_amp_le_sample(echo_amp(amp, fb, (k - 1) as nat), fb);
    }
}

/// With feedback strictly below unit gain each echo is strictly quieter
/// than the one before, until silence is reached: geometric decay.
pub proof fn lemma_echo_amp_strict_decay(amp: int, fb: int, k: nat)
    requires
        0 <= amp <= SCALE as int,
        0 <= fb < SCALE as int,
    ensures
        0 <= echo_amp(amp, fb, (k + 1) as nat) <= echo_amp(amp, fb, k),
        echo_amp(amp, fb, k) > 0 ==> echo_amp(amp, fb, (k + 1) as nat) < echo_amp(amp, fb, k),
{
    lemma_echo_amp_bounds(amp, fb, k);
    lemma_echo_amp_bounds(amp, fb, (k + 1) as nat);
    if echo_amp(amp, fb, k) > 0 {
        lemma_scale_amp_strict_decay(echo_amp(amp, fb, k), fb);
    }
}

/// Stepping the echo index: one delay span earlier, same phase.
proof fn lemma_step_mod_div(s: int, nd: int)
    requires
        1 <= nd <= s,
    ensures
        (s - nd) % nd == s % nd,
        s % nd == 0 ==> 1 <= s / nd && (s - nd) / nd == s / nd - 1,
{
    vstd::arithmetic::div_mod::lemma_mod_sub_multiples_vanish(s, nd);
    if s % nd == 0 {
        vstd::arithmetic::div_mod::lemma_fundamental_div_mod(s, nd);
        let k = s / nd;
        vstd::arithmetic::div_mod::lemma_div_pos_is_pos(s, nd);
        assert(s == nd * k);
        assert(k >= 1) by (nonlinear_arith)
            requires
                s >= nd >= 1,
                s == nd * k,
                k >= 0,
        ;
        assert(s - nd == nd * (k - 1)) by (nonlinear_arith)
            requires
                s == nd * k,
        ;
        vstd::arithmetic::div_mod::lemma_div_multiples_vanish(k - 1, nd);
    }
}

/// What an impulse leaves in the store: an echo every `nd` pulls, with the
/// iterated feedback amplitudes, and silence in between.
proof fn lemma_impulse_hist(amp: int, fb: int, nd: int, len: nat, s: int)
    requires
        0 < amp <= SCALE as int,
        0 <= fb <= SCALE as int,
        1 <= nd,
        0 <= s < len,
    ensures
        hist(impulse(amp, len), fb, nd, s) == if s % nd == 0 {
            echo_amp(amp, fb, (s / nd) as nat)
        } else {
            0
        },
    decreases s,
{
    let ins = impulse(amp, len);
    if s == 0 {
        vstd::arithmetic::div_mod::lemma_small_mod(0nat, nd as nat);
        vstd::arithmetic::div_mod::lemma_div_of0(nd);
        lemma_scale_amp_zero_sample(fb);
        assert(hist(ins, fb, nd, 0) == clamp_spec(amp + 0));
    } else if s < nd {
        vstd::arithmetic::div_mod::lemma_small_mod(s as nat, nd as nat);
        lemma_scale_amp_zero_sample(fb);
        assert(hist(ins, fb, nd, s) == clamp_spec(0int + 0int));
    } else {
        lemma_impulse_hist(amp, fb, nd, len, s - nd);
        lemma_step_mod_div(s, nd);
        lemma_echo_amp_bounds(amp, fb, ((s / nd)) as nat);
        if s % nd == 0 {
            let k = s / nd;
            lemma_echo_amp_bounds(amp, fb, (k - 1) as nat);
            lemma_scale_amp_le_sample(echo_amp(amp, fb, (k - 1) as nat), fb);
            assert(hist(ins, fb, nd, s) == clamp_spec(
                0 + scale_amp_spec(echo_amp(amp, fb, (k - 1) as nat), fb),
            ));
            assert(echo_amp(amp, fb, k as nat) == scale_amp_spec(
                echo_amp(amp, fb, (k - 1) as nat),
                fb,
            ));
        } else {
            lemma_scale_amp_zero_sample(fb);
            assert(hist(ins, fb, nd, s) == clamp_spec(0int + 0int));
        }
    }
}

/// Impulse response of a fresh delay line: the dry-scaled impulse at pull
/// zero, then echoes spaced exactly `delay` pulls apart, the k-th echo
/// being the impulse amplitude scaled k times over by the feedback
/// coefficient (so successive echoes stand in the fixed-point ratio
/// `feedback`), wet-scaled on emission; silence everywhere else.
pub proof fn lemma_impulse_response(m: DelayModel, amp: int, len: nat)
    requires
        m.wf(),
        all_silent(m),
        0 < amp <= SCALE as int,
    ensures
        run_outputs(m, impulse(amp, len)).len() == len,
        forall|t: int|
            0 <= t < len ==> run_outputs(m, impulse(amp, len))[t] == (if t == 0 {
                scale_amp_spec(amp, m.dry())
            } else if t % m.delay == 0 {
                scale_amp_spec(echo_amp(amp, m.feedback, (t / m.delay) as nat), m.wet)
            } else {
                0
            }),
{
    let ins = impulse(amp, len);
    let fb = m.feedback;
    let nd = m.delay;
    lemma_run_response(m, ins);
    assert forall|t: int| 0 <= t < len implies run_outputs(m, ins)[t] == (if t == 0 {
        scale_amp_spec(amp, m.dry())
    } else if t % nd == 0 {
        scale_amp_spec(echo_amp(amp, fb, (t / nd) as nat), m.wet)
    } else {
        0
    }) by {
        if t == 0 {
            lemma_scale_amp_zero_sample(fb);
            lemma_scale_amp_zero_sample(m.wet);
        } else {
            lemma_scale_amp_zero_sample(m.dry());
            if t < nd {
                vstd::arithmetic::div_mod::lemma_small_mod(t as nat, nd as nat);
                lemma_scale_amp_zero_sample(fb);
                lemma_scale_amp_zero_sample(m.wet);
            } else {
                lemma_impulse_hist(amp, fb, nd, len, t - nd);
                lemma_step_mod_div(t, nd);
                if t % nd == 0 {
                    let k = t / nd;
                    assert(hist(ins, fb, nd, t - nd) == echo_amp(amp, fb, (k - 1) as nat));
                    assert(echo_amp(amp, fb, k as nat) == scale_amp_spec(
                        echo_amp(amp, fb, (k - 1) as nat),
                        fb,
                    ));
                } else {
                    lemma_scale_amp_zero_sample(fb);
                    lemma_scale_amp_zero_sample(m.wet);
                }
            }
        }
    }
}

/// Until the delay span has filled (`t < delay`), a fresh delay line's
/// output carries only the dry-scaled direct signal: the delayed tap is
/// still silence.
pub proof fn lemma_early_output_dry(m: DelayModel, inputs: Seq<int>)
    requires
        m.wf(),
        all_silent(m),
    ensures
        forall|t: int|
            0 <= t < inputs.len() && t < m.delay ==> run_outputs(m, inputs)[t] == scale_amp_spec(
                inputs[t],
                m.dry(),
            ),
{
    lemma_run_response(m, inputs);
    assert forall|t: int| 0 <= t < inputs.len() && t < m.delay implies run_outputs(m, inputs)[t]
        == scale_amp_spec(inputs[t], m.dry()) by {
        lemma_scale_amp_zero_sample(m.feedback);
        lemma_scale_amp_zero_sample(m.wet);
    }
}

} // verus!

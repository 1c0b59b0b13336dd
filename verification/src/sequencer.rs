//! Segment sequencer.
//!
//! A `Sequencer` concatenates finite-length segments — enveloped tone
//! generators and runs of silence — into one continuous signal. Each
//! segment emits frames for exactly its declared length: truncation is a
//! hard cutoff, never a check of the underlying generator, which is how
//! infinite generators terminate. Zero-length segments are skipped without
//! emitting anything, and the sequencer is exhausted exactly when the
//! declared frames of all segments have been emitted.

use vstd::prelude::*;
use crate::fixed::in_full_scale;
use crate::wave::Oscillator;
use crate::envelope::Envelope;

verus! {

#[derive(Clone, Copy)]
pub enum Segment {
    /// A gain-enveloped waveform generator, truncated to `len` frames.
    Tone { osc: Oscillator, env: Envelope, len: u64 },
    /// `len` frames of equilibrium.
    Silence { len: u64 },
}

impl Segment {
    pub open spec fn wf(self) -> bool {
        match self {
            Segment::Tone { osc, env, .. } => osc.wf() && env.wf(),
            Segment::Silence { .. } => true,
        }
    }

    /// Declared length in frames.
    pub open spec fn len_spec(self) -> int {
        match self {
            Segment::Tone { len, .. } => len as int,
            Segment::Silence { len } => len as int,
        }
    }

    /// The sample the segment's next pull emits.
    pub open spec fn out_spec(self) -> int {
        match self {
            Segment::Tone { osc, env, .. } => env.out_spec(osc.out_spec()),
            Segment::Silence { .. } => 0,
        }
    }

    /// The segment state after one pull.
    pub open spec fn step_spec(self) -> Segment {
        match self {
            Segment::Tone { osc, env, len } => Segment::Tone {
                osc: osc.step_spec(),
                env: env.step_spec(),
                len,
            },
            Segment::Silence { .. } => self,
        }
    }

    /// Declared length in frames.
    pub fn frames(&self) -> (l: u64)
        ensures
            l as int == self.len_spec(),
    {
        match self {
            Segment::Tone { len, .. } => *len,
            Segment::Silence { len } => *len,
        }
    }
}

/// Total declared length of a list of segments.
pub open spec fn total_len(segs: Seq<Segment>) -> int
    decreases segs.len(),
{
    if segs.len() == 0 {
        0
    } else {
        segs[0].len_spec() + total_len(segs.drop_first())
    }
}

pub proof fn lemma_total_len_nonneg(segs: Seq<Segment>)
    ensures
        total_len(segs) >= 0,
    decreases segs.len(),
{
    if segs.len() > 0 {
        lemma_total_len_nonneg(segs.drop_first());
    }
}

/// Peeling one segment off the front of a suffix.
pub proof fn lemma_total_len_skip(segs: Seq<Segment>, i: int)
    requires
        0 <= i < segs.len(),
    ensures
        total_len(segs.skip(i)) == segs[i].len_spec() + total_len(segs.skip(i + 1)),
{
    assert(segs.skip(i).drop_first() =~= segs.skip(i + 1));
    assert(segs.skip(i)[0] == segs[i]);
}

pub struct Sequencer {
    pub segments: Vec<Segment>,
    /// Index of the segment the next pull draws from.
    pub idx: usize,
    /// Frames already drawn from that segment.
    pub pos: u64,
}

impl Sequencer {
    /// Well-formed and normalized: the cursor either sits strictly inside
    /// a segment or rests at the very end of the list.
    pub open spec fn wf(self) -> bool {
        &&& self.idx <= self.segments@.len()
        &&& forall|i: int| 0 <= i < self.segments@.len() ==> (#[trigger] self.segments@[i]).wf()
        &&& if self.idx < self.segments@.len() {
            self.pos < self.segments@[self.idx as int].len_spec()
        } else {
            self.pos == 0
        }
    }

    /// Frames still owed before exhaustion.
    pub open spec fn remaining(self) -> int {
        total_len(self.segments@.skip(self.idx as int)) - self.pos
    }

    /// A well-formed sequencer never owes a negative number of frames,
    /// and owes some exactly while its cursor is inside a segment.
    pub proof fn lemma_remaining_nonneg(self)
        requires
            self.wf(),
        ensures
            self.remaining() >= 0,
            (self.idx < self.segments@.len()) <==> self.remaining() > 0,
    {
        if self.idx < self.segments@.len() {
            lemma_total_len_skip(self.segments@, self.idx as int);
            lemma_total_len_nonneg(self.segments@.skip(self.idx as int + 1));
        } else {
            assert(self.segments@.skip(self.idx as int) =~= Seq::<Segment>::empty());
        }
    }

    /// Whether any frames are still owed.
    pub fn has_more(&self) -> (b: bool)
        requires
            self.wf(),
        ensures
            b <==> self.remaining() > 0,
            self.remaining() >= 0,
    {
        proof {
            self.lemma_remaining_nonneg();
        }
        self.idx < self.segments.len()
    }

    /// A sequencer over the given segments, about to emit the first frame
    /// of the first nonempty segment.
    pub fn new(segments: Vec<Segment>) -> (s: Sequencer)
        requires
            forall|i: int| 0 <= i < segments@.len() ==> (#[trigger] segments@[i]).wf(),
        ensures
            s.wf(),
            s.segments@ == segments@,
            s.remaining() == total_len(segments@),
    {
        let mut s = Sequencer { segments, idx: 0, pos: 0 };
        proof {
            assert(s.segments@.skip(0) =~= s.segments@);
        }
        s.normalize();
        s
    }

    /// Advance the cursor past exhausted and empty segments.
    fn normalize(&mut self)
        requires
            old(self).idx <= old(self).segments@.len(),
            forall|i: int|
                0 <= i < old(self).segments@.len() ==> (#[trigger] old(self).segments@[i]).wf(),
            old(self).idx < old(self).segments@.len() ==> old(self).pos <= old(
                self,
            ).segments@[old(self).idx as int].len_spec(),
            old(self).idx == old(self).segments@.len() ==> old(self).pos == 0,
        ensures
            final(self).wf(),
            final(self).segments@ == old(self).segments@,
            final(self).remaining() == old(self).remaining(),
    {
        let n = self.segments.len();
        while self.idx < n && self.pos >= self.segments[self.idx].frames()
            invariant
                self.segments@ == old(self).segments@,
                n == self.segments@.len(),
                self.idx <= n,
                forall|i: int|
                    0 <= i < self.segments@.len() ==> (#[trigger] self.segments@[i]).wf(),
                self.idx < n ==> self.pos <= self.segments@[self.idx as int].len_spec(),
                self.idx == n ==> self.pos == 0,
                self.remaining() == old(self).remaining(),
            decreases n - self.idx,
        {
            proof {
                lemma_total_len_skip(self.segments@, self.idx as int);
            }
            self.idx = self.idx + 1;
            self.pos = 0;
        }
    }

    /// Emit the next frame, or report exhaustion once all declared frames
    /// are out. Each emitted frame comes from the current segment, whose
    /// generator state advances by exactly one pull; the count of frames
    /// still owed drops by exactly one.
    pub fn next(&mut self) -> (r: Option<i64>)
        requires
            old(self).wf(),
        ensures
            final(self).wf(),
            r is Some <==> old(self).remaining() > 0,
            r is None ==> *final(self) == *old(self),
            r is Some ==> {
                &&& r->Some_0 as int == old(self).segments@[old(self).idx as int].out_spec()
                &&& in_full_scale(r->Some_0 as int)
                &&& final(self).segments@ == old(self).segments@.update(
                    old(self).idx as int,
                    old(self).segments@[old(self).idx as int].step_spec(),
                )
                &&& final(self).remaining() == old(self).remaining() - 1
            },
    {
        let n = self.segments.len();
        if self.idx >= n {
            proof {
                assert(self.segments@.skip(self.idx as int) =~= Seq::<Segment>::empty());
            }
            return None;
        }
        proof {
            lemma_total_len_skip(self.segments@, self.idx as int);
            lemma_total_len_nonneg(self.segments@.skip(self.idx as int + 1));
        }
        let ghost segs0 = self.segments@;
        let ghost i0 = self.idx as int;
        let seg = self.segments[self.idx];
        let out: i64;
        match seg {
            Segment::Silence { .. } => {
                out = 0;
            },
            Segment::Tone { mut osc, mut env, len } => {
                let x = osc.next();
                out = env.step(x);
                self.segments[self.idx] = Segment::Tone { osc, env, len };
            },
        }
        proof {
            assert(self.segments@ =~= segs0.update(i0, segs0[i0].step_spec()));
            assert(self.segments@[i0].len_spec() == segs0[i0].len_spec());
            assert forall|j: int| 0 <= j < self.segments@.len() implies (#[trigger] self
                .segments@[j]).wf() by {
                if j != i0 {
                    assert(self.segments@[j] == segs0[j]);
                }
            }
            // The suffix totals agree segment by segment after the update.
            lemma_total_len_skip(self.segments@, i0);
            assert(self.segments@.skip(i0 + 1) =~= segs0.skip(i0 + 1));
        }
        self.pos = self.pos + 1;
        self.normalize();
        Some(out)
    }
}

} // verus!

//! A verified mono audio signal pipeline: fixed-point waveform generators,
//! an amplitude envelope, a segment sequencer, and a feedback delay line
//! over a fixed-capacity ring buffer. The pipeline is pull-based: every
//! component produces one frame per call, allocation-free after setup, and
//! a stream ends exactly when the sequencer's declared frames run out.

pub mod fixed;
pub mod ring;
pub mod wave;
pub mod envelope;
pub mod sequencer;
pub mod delay;
pub mod pipeline;

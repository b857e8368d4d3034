//! The startup gate: when playback may begin.
//!
//! Playback starts once enough audio is buffered to ride out scheduling
//! jitter, or once the whole stream has arrived, whichever comes first. The
//! caller polls: on `Wait` it sleeps for [`GATE_POLL_MICROS`] and asks again.

use crate::queue::{lemma_done_is_latched, BufferView, LockFreeBuffer, QueueOp};
use crate::render::SAMPLE_RATE;
use vstd::prelude::*;

verus! {

/// Audio to buffer before playback starts, in milliseconds.
pub const MIN_BUFFER_MS: u32 = 150;

/// Audio to buffer before playback starts, in samples.
pub const MIN_BUFFER_SAMPLES: usize = 3600;

/// Pause between two polls, in microseconds.
pub const GATE_POLL_MICROS: u64 = 500;

/// The answer to one poll.
#[derive(Clone, Copy, Debug, PartialEq, Eq, Structural)]
pub enum GateDecision {
    /// Too little is buffered and more is to come.
    Wait,
    /// Start playback.
    Release,
}

/// The answer for a queue in state `queue`: release when at
/// least `threshold` samples are buffered or the producer has finished.
pub open spec fn gate_decision(queue: BufferView, threshold: nat) -> GateDecision {
    if queue.len() >= threshold || queue.done {
        GateDecision::Release
    } else {
        GateDecision::Wait
    }
}

/// The threshold is the number of samples played in `MIN_BUFFER_MS`
/// milliseconds.
pub proof fn lemma_min_buffer_duration()
    ensures
        MIN_BUFFER_SAMPLES == SAMPLE_RATE * MIN_BUFFER_MS / 1000,
{
}

/// A stream that has finished starts playback, however short it was and
/// however high the threshold is: whatever else happened to the queue, once
/// the producer has marked it complete the answer is `Release`.
pub proof fn lemma_gate_releases_finished_stream(
    start: BufferView,
    ops: Seq<QueueOp>,
    threshold: nat,
)
    requires
        ops.contains(QueueOp::MarkDone),
    ensures
        gate_decision(start.run(ops), threshold) == GateDecision::Release,
{
    lemma_done_is_latched(start, ops);
}

/// Polls once: may playback start now?
pub fn poll_gate(queue: &LockFreeBuffer, threshold: usize) -> (decision: GateDecision)
    ensures
        decision == gate_decision(queue@, threshold as nat),
{
    if queue.len() >= threshold || queue.is_done() {
        GateDecision::Release
    } else {
        GateDecision::Wait
    }
}

} // verus!

//! The render sequence: the pull-based sample source that an audio sink drains.
//!
//! Each pull takes the oldest buffered sample, applies the fade-in envelope
//! while the ramp lasts, and hands the result to the sink. When nothing is
//! buffered the pull says so and leaves the waiting to the caller, which spins
//! and pulls again. Once the queue is empty and the producer has finished, the
//! sequence ends for good.

use crate::fade::{fade_in, faded, FADE_IN_SAMPLES};
use crate::queue::{BufferView, LockFreeBuffer};
use std::time::Duration;
use vstd::prelude::*;

verus! {

/// Samples per second of the stream.
pub const SAMPLE_RATE: u32 = 24000;

/// Number of channels of the stream: mono.
pub const CHANNELS: u16 = 1;

/// What one pull yields.
#[derive(Clone, Copy, Debug, PartialEq, Eq, Structural)]
pub enum Pull {
    /// The next sample to play.
    Sample(i16),
    /// Nothing is buffered and the producer is still running: pull again.
    Starved,
    /// The stream is over. Every later pull yields this too.
    Ended,
}

/// Where a render sequence stands.
#[derive(Clone, Copy, Debug, PartialEq, Eq, Structural)]
pub enum RenderState {
    /// Fewer than [`FADE_IN_SAMPLES`] samples were emitted: the ramp applies.
    FadeIn,
    /// The ramp is over: samples pass unchanged.
    SteadyState,
    /// The last pull found the queue empty and the producer still running.
    Draining,
    /// The terminal signal was given.
    Ended,
}

/// A render sequence as a mathematical value.
pub struct RenderView {
    /// Samples emitted so far; the count stops at `usize::MAX`.
    pub emitted: usize,
    /// Whether the last pull found the queue empty with the producer running.
    pub draining: bool,
    /// Whether the terminal signal was given.
    pub ended: bool,
}

impl RenderView {
    /// A sequence that has emitted nothing yet.
    pub open spec fn fresh() -> Self {
        RenderView { emitted: 0, draining: false, ended: false }
    }

    /// The state of the sequence.
    pub open spec fn state(self) -> RenderState {
        if self.ended {
            RenderState::Ended
        } else if self.draining {
            RenderState::Draining
        } else if self.emitted < FADE_IN_SAMPLES {
            RenderState::FadeIn
        } else {
            RenderState::SteadyState
        }
    }

    /// What a pull yields when the queue is in state `queue`.
    pub open spec fn pull(self, queue: BufferView) -> Pull {
        if self.ended {
            Pull::Ended
        } else {
            match queue.front() {
                Some(sample) => Pull::Sample(faded(sample as int, self.emitted as nat) as i16),
                None => if queue.done {
                    Pull::Ended
                } else {
                    Pull::Starved
                },
            }
        }
    }

    /// The sequence after a pull on a queue in state `queue`. A sequence that
    /// has ended does not change any more.
    pub open spec fn after_pull(self, queue: BufferView) -> Self {
        if self.ended {
            self
        } else {
            match self.pull(queue) {
                Pull::Sample(_) => RenderView {
                    emitted: if self.emitted < usize::MAX {
                        (self.emitted + 1) as usize
                    } else {
                        self.emitted
                    },
                    draining: false,
                    ended: false,
                },
                Pull::Starved => RenderView { emitted: self.emitted, draining: true, ended: false },
                Pull::Ended => RenderView { emitted: self.emitted, draining: false, ended: true },
            }
        }
    }

    /// The queue after a pull: a sequence that has ended leaves it alone,
    /// any other pull takes the oldest sample if there is one.
    pub open spec fn queue_after_pull(self, queue: BufferView) -> BufferView {
        if self.ended {
            queue
        } else {
            queue.pop()
        }
    }

    /// The sequence after `n` pulls in a row, with nothing else touching the
    /// queue in between.
    pub open spec fn after_pulls(self, queue: BufferView, n: nat) -> Self
        decreases n,
    {
        if n == 0 {
            self
        } else {
            self.after_pulls(queue, (n - 1) as nat).after_pull(
                self.queue_after_pulls(queue, (n - 1) as nat),
            )
        }
    }

    /// The queue after `n` pulls in a row.
    pub open spec fn queue_after_pulls(self, queue: BufferView, n: nat) -> BufferView
        decreases n,
    {
        if n == 0 {
            queue
        } else {
            self.after_pulls(queue, (n - 1) as nat).queue_after_pull(
                self.queue_after_pulls(queue, (n - 1) as nat),
            )
        }
    }

    /// What pull number `n` yields, counting from zero, in a run of pulls with
    /// nothing else touching the queue.
    pub open spec fn nth_pull(self, queue: BufferView, n: nat) -> Pull {
        self.after_pulls(queue, n).pull(self.queue_after_pulls(queue, n))
    }
}

/// The emitted count after `n` more samples: it stops at `usize::MAX`.
pub open spec fn count_after(emitted: usize, n: nat) -> usize {
    if emitted + n < usize::MAX {
        (emitted + n) as usize
    } else {
        usize::MAX
    }
}

/// The terminal signal is given exactly when the queue is empty and the
/// producer has finished. This holds of every sequence that has not ended
/// while samples were still to come, that is, as long as nothing is pushed
/// after the end of the stream.
pub proof fn lemma_terminal_iff_drained(render: RenderView, queue: BufferView)
    requires
        render.ended ==> queue.len() == 0 && queue.done,
    ensures
        render.pull(queue) == Pull::Ended <==> queue.len() == 0 && queue.done,
{
}

/// The end is final: once a pull has given the terminal signal, every later
/// pull gives it too, whatever the queue holds by then, and neither the
/// sequence nor the queue changes any more.
pub proof fn lemma_ended_is_final(render: RenderView, queue: BufferView, later: BufferView)
    requires
        render.pull(queue) == Pull::Ended,
    ensures
        render.after_pull(queue).state() == RenderState::Ended,
        render.after_pull(queue).pull(later) == Pull::Ended,
        render.after_pull(queue).after_pull(later) == render.after_pull(queue),
        render.after_pull(queue).queue_after_pull(later) == later,
{
}

/// The sequence and the queue after `n` pulls in a row.
proof fn lemma_after_pulls(render: RenderView, queue: BufferView, n: nat)
    requires
        !render.ended,
    ensures
        n <= queue.len() ==> render.queue_after_pulls(queue, n) == (BufferView {
            samples: queue.samples.skip(n as int),
            done: queue.done,
        }),
        n <= queue.len() ==> render.after_pulls(queue, n) == (RenderView {
            emitted: count_after(render.emitted, n),
            draining: n == 0 && render.draining,
            ended: false,
        }),
        n > queue.len() ==> render.queue_after_pulls(queue, n) == (BufferView {
            samples: Seq::empty(),
            done: queue.done,
        }),
        n > queue.len() ==> render.after_pulls(queue, n) == (RenderView {
            emitted: count_after(render.emitted, queue.len()),
            draining: !queue.done,
            ended: queue.done,
        }),
    decreases n,
{
    if n == 0 {
        assert(queue.samples.skip(0) =~= queue.samples);
    } else {
        let before = (n - 1) as nat;
        lemma_after_pulls(render, queue, before);
        let q = render.queue_after_pulls(queue, before);
        if n <= queue.len() {
            assert(q.samples.drop_first() =~= queue.samples.skip(n as int));
        } else if before == queue.len() {
            assert(q.samples =~= Seq::empty());
        }
    }
}

/// What a run of pulls yields when nothing else touches the queue: the
/// buffered samples in order, each with the envelope of its position in the
/// output, and after the last of them the terminal signal if the producer has
/// finished, or a request to pull again if it has not.
pub proof fn lemma_run_of_pulls(render: RenderView, queue: BufferView, n: nat)
    requires
        !render.ended,
    ensures
        n < queue.len() ==> render.nth_pull(queue, n) == Pull::Sample(
            faded(queue.samples[n as int] as int, (render.emitted + n) as nat) as i16,
        ),
        n >= queue.len() && queue.done ==> render.nth_pull(queue, n) == Pull::Ended,
        n >= queue.len() && !queue.done ==> render.nth_pull(queue, n) == Pull::Starved,
{
    lemma_after_pulls(render, queue, n);
}

/// Cursor of the audio sink over the sample queue.
pub struct StreamSource {
    samples_emitted: usize,
    draining: bool,
    ended: bool,
}

impl View for StreamSource {
    type V = RenderView;

    closed spec fn view(&self) -> RenderView {
        RenderView { emitted: self.samples_emitted, draining: self.draining, ended: self.ended }
    }
}

impl StreamSource {
    /// Creates a render sequence that has emitted nothing.
    pub fn new() -> (source: Self)
        ensures
            source@ == RenderView::fresh(),
    {
        StreamSource { samples_emitted: 0, draining: false, ended: false }
    }

    /// Pulls once. With a sample buffered, takes the oldest, applies the
    /// fade-in envelope at the position it will have in the output, and yields
    /// it. With nothing buffered, yields `Starved` while the producer runs and
    /// `Ended` once it has finished. After `Ended` the sequence stays ended
    /// and no longer touches the queue.
    pub fn next(&mut self, queue: &mut LockFreeBuffer) -> (pulled: Pull)
        ensures
            pulled == old(self)@.pull(old(queue)@),
            final(self)@ == old(self)@.after_pull(old(queue)@),
            final(queue)@ == old(self)@.queue_after_pull(old(queue)@),
    {
        if self.ended {
            return Pull::Ended;
        }
        match queue.pop() {
            Some(sample) => {
                let out = fade_in(sample, self.samples_emitted);
                if self.samples_emitted < usize::MAX {
                    self.samples_emitted = self.samples_emitted + 1;
                }
                self.draining = false;
                Pull::Sample(out)
            },
            None => {
                if queue.is_done() {
                    self.draining = false;
                    self.ended = true;
                    Pull::Ended
                } else {
                    self.draining = true;
                    Pull::Starved
                }
            },
        }
    }

    /// The state of the sequence.
    pub fn state(&self) -> (state: RenderState)
        ensures
            state == self@.state(),
    {
        if self.ended {
            RenderState::Ended
        } else if self.draining {
            RenderState::Draining
        } else if self.samples_emitted < FADE_IN_SAMPLES {
            RenderState::FadeIn
        } else {
            RenderState::SteadyState
        }
    }

    /// Number of samples emitted so far.
    pub fn samples_emitted(&self) -> (n: usize)
        ensures
            n == self@.emitted,
    {
        self.samples_emitted
    }

    /// Frame length: none, the stream has no fixed-size frames.
    pub fn current_frame_len(&self) -> (len: Option<usize>)
        ensures
            len is None,
    {
        None
    }

    /// Number of channels: one.
    pub fn channels(&self) -> (n: u16)
        ensures
            n == CHANNELS,
    {
        CHANNELS
    }

    /// Samples per second.
    pub fn sample_rate(&self) -> (rate: u32)
        ensures
            rate == SAMPLE_RATE,
    {
        SAMPLE_RATE
    }

    /// Total duration: none, the length of a live stream is not known.
    pub fn total_duration(&self) -> (duration: Option<Duration>)
        ensures
            duration is None,
    {
        None
    }
}

} // verus!

//! The sample queue shared by the transport reader (producer) and the render
//! sequence (consumer).
//!
//! The queue itself is a plain value: whoever shares it between threads puts it
//! behind a lock and calls these methods while holding it.

use crate::render::SAMPLE_RATE;
use std::collections::VecDeque;
use vstd::prelude::*;

verus! {

/// What a queue holds, as a mathematical value: the buffered samples, oldest
/// first, and the completion flag.
pub struct BufferView {
    pub samples: Seq<i16>,
    pub done: bool,
}

impl BufferView {
    /// The state of a new queue: nothing buffered, producer still running.
    pub open spec fn empty() -> Self {
        BufferView { samples: Seq::empty(), done: false }
    }

    /// Number of samples pushed and not yet popped.
    pub open spec fn len(self) -> nat {
        self.samples.len()
    }

    /// Appends `sample` at the tail.
    pub open spec fn push(self, sample: i16) -> Self {
        BufferView { samples: self.samples.push(sample), done: self.done }
    }

    /// The sample a pop returns: the oldest one, or nothing on an empty queue.
    pub open spec fn front(self) -> Option<i16> {
        if self.samples.len() > 0 {
            Some(self.samples[0])
        } else {
            None
        }
    }

    /// The state a pop leaves behind: the oldest sample is gone; an empty
    /// queue stays as it is.
    pub open spec fn pop(self) -> Self {
        if self.samples.len() > 0 {
            BufferView { samples: self.samples.drop_first(), done: self.done }
        } else {
            self
        }
    }

    /// Latches the completion flag.
    pub open spec fn mark_done(self) -> Self {
        BufferView { samples: self.samples, done: true }
    }
}

/// First-in first-out queue of decoded samples with a one-shot completion flag.
///
/// The queue grows without bound: a slow consumer costs memory, never samples.
pub struct LockFreeBuffer {
    data: VecDeque<i16>,
    done: bool,
}

impl View for LockFreeBuffer {
    type V = BufferView;

    closed spec fn view(&self) -> BufferView {
        BufferView { samples: self.data@, done: self.done }
    }
}

impl LockFreeBuffer {
    /// Creates an empty queue whose producer has not finished, with room for
    /// one second of audio set aside.
    pub fn new() -> (q: Self)
        ensures
            q@ == BufferView::empty(),
    {
        LockFreeBuffer { data: VecDeque::with_capacity(SAMPLE_RATE as usize), done: false }
    }

    /// Appends `sample` at the tail. Never fails and never drops a sample.
    pub fn push(&mut self, sample: i16)
        ensures
            final(self)@ == old(self)@.push(sample),
    {
        self.data.push_back(sample);
    }

    /// Removes and returns the oldest sample, or returns `None` at once when
    /// nothing is buffered.
    pub fn pop(&mut self) -> (r: Option<i16>)
        ensures
            r == old(self)@.front(),
            final(self)@ == old(self)@.pop(),
    {
        let r = self.data.pop_front();
        proof {
            if old(self)@.samples.len() > 0 {
                assert(self.data@ =~= old(self)@.samples.drop_first());
            }
        }
        r
    }

    /// Number of samples pushed and not yet popped.
    pub fn len(&self) -> (n: usize)
        ensures
            n == self@.len(),
    {
        self.data.len()
    }

    /// Whether the producer has finished.
    pub fn is_done(&self) -> (b: bool)
        ensures
            b == self@.done,
    {
        self.done
    }

    /// Records that the producer has finished. The flag never resets, and the
    /// buffered samples are untouched.
    pub fn set_done(&mut self)
        ensures
            final(self)@ == old(self)@.mark_done(),
    {
        self.done = true;
    }
}

/// One operation on a queue, as it appears in a history of calls.
pub enum QueueOp {
    /// A sample is pushed.
    Push(i16),
    /// A pop is attempted; on an empty queue it returns nothing.
    Pop,
    /// The producer marks the stream complete.
    MarkDone,
}

impl BufferView {
    /// The state after one operation.
    pub open spec fn apply(self, op: QueueOp) -> Self {
        match op {
            QueueOp::Push(sample) => self.push(sample),
            QueueOp::Pop => self.pop(),
            QueueOp::MarkDone => self.mark_done(),
        }
    }

    /// The state after the operations `ops`, applied in order.
    pub open spec fn run(self, ops: Seq<QueueOp>) -> Self
        decreases ops.len(),
    {
        if ops.len() == 0 {
            self
        } else {
            self.run(ops.drop_last()).apply(ops.last())
        }
    }

    /// The samples that the pops among `ops` return, in the order of the
    /// calls, when `ops` is applied to this state.
    pub open spec fn popped(self, ops: Seq<QueueOp>) -> Seq<i16>
        decreases ops.len(),
    {
        if ops.len() == 0 {
            Seq::empty()
        } else {
            let earlier = self.popped(ops.drop_last());
            match (ops.last(), self.run(ops.drop_last()).front()) {
                (QueueOp::Pop, Some(sample)) => earlier.push(sample),
                _ => earlier,
            }
        }
    }
}

/// The samples that the pushes among `ops` append, in the order of the calls.
pub open spec fn pushed(ops: Seq<QueueOp>) -> Seq<i16>
    decreases ops.len(),
{
    if ops.len() == 0 {
        Seq::empty()
    } else {
        match ops.last() {
            QueueOp::Push(sample) => pushed(ops.drop_last()).push(sample),
            _ => pushed(ops.drop_last()),
        }
    }
}

/// First in, first out: however pushes, pops and completion marks are
/// interleaved, the samples popped so far followed by the samples still
/// buffered are exactly the samples that went in, in the order they went in.
/// Nothing is dropped, duplicated or reordered.
pub proof fn lemma_fifo(start: BufferView, ops: Seq<QueueOp>)
    ensures
        start.popped(ops) + start.run(ops).samples == start.samples + pushed(ops),
    decreases ops.len(),
{
    if ops.len() > 0 {
        let before = ops.drop_last();
        lemma_fifo(start, before);
        let prev = start.run(before);
        assert(start.popped(before) + prev.samples == start.samples + pushed(before));
        match ops.last() {
            QueueOp::Push(sample) => {
                assert(start.popped(ops) + start.run(ops).samples =~= (start.popped(before)
                    + prev.samples).push(sample));
                assert(start.samples + pushed(ops) =~= (start.samples + pushed(before)).push(
                    sample,
                ));
            },
            QueueOp::Pop => {
                if prev.samples.len() > 0 {
                    assert(start.popped(ops) + start.run(ops).samples =~= start.popped(before)
                        + prev.samples);
                }
            },
            QueueOp::MarkDone => {},
        }
    } else {
        assert(start.popped(ops) + start.run(ops).samples =~= start.samples + pushed(ops));
    }
}

/// The length of a queue is the number of samples pushed and not yet popped,
/// after any history of calls.
pub proof fn lemma_len_counts_unpopped(start: BufferView, ops: Seq<QueueOp>)
    ensures
        start.run(ops).len() == start.len() + pushed(ops).len() - start.popped(ops).len(),
{
    lemma_fifo(start, ops);
    assert((start.popped(ops) + start.run(ops).samples).len() == (start.samples + pushed(
        ops,
    )).len());
}

/// Marking a queue complete a second time changes nothing.
pub proof fn lemma_mark_done_idempotent(state: BufferView)
    ensures
        state.mark_done().mark_done() == state.mark_done(),
{
}

/// The completion flag is set by a completion mark and by nothing else, and
/// once set it stays set.
pub proof fn lemma_done_is_latched(start: BufferView, ops: Seq<QueueOp>)
    ensures
        start.run(ops).done == (start.done || ops.contains(QueueOp::MarkDone)),
    decreases ops.len(),
{
    if ops.len() > 0 {
        let before = ops.drop_last();
        lemma_done_is_latched(start, before);
        if before.contains(QueueOp::MarkDone) {
            let i = choose|i: int| 0 <= i < before.len() && before[i] == QueueOp::MarkDone;
            assert(ops[i] == QueueOp::MarkDone);
        }
        if ops.contains(QueueOp::MarkDone) && ops.last() != QueueOp::MarkDone {
            let i = choose|i: int| 0 <= i < ops.len() && ops[i] == QueueOp::MarkDone;
            assert(before[i] == QueueOp::MarkDone);
        }
    }
}

} // verus!

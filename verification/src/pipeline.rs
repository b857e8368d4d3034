//! The pipeline as a whole: what the sink hears of what the network sent.
//!
//! Producer and consumer run on two threads and take turns on the queue. A
//! run of the pipeline is therefore a sequence of steps, each a read reported
//! to the transport reader or a pull of the render sequence, in whatever order
//! the threads happened to get the queue. The law at the end of this file
//! holds of every such sequence.

use crate::fade::{faded, lemma_faded_is_bounded};
use crate::queue::BufferView;
use crate::render::{count_after, Pull, RenderView};
use crate::transport::{decode_pairs, lemma_decode_split, unpaired, with_carry, ReaderView};
use vstd::prelude::*;

verus! {

/// One step of a run.
pub enum Step {
    /// A read returned these bytes; none at all means the end of the stream.
    Read(Seq<u8>),
    /// A read failed.
    ReadFailed,
    /// The sink pulled once.
    Pull,
}

/// The three parts of a pipeline, as mathematical values.
pub struct PipelineView {
    pub reader: ReaderView,
    pub queue: BufferView,
    pub render: RenderView,
}

impl PipelineView {
    /// A pipeline before anything has happened.
    pub open spec fn fresh() -> Self {
        PipelineView {
            reader: ReaderView::fresh(),
            queue: BufferView::empty(),
            render: RenderView::fresh(),
        }
    }

    /// The pipeline after one step.
    pub open spec fn step(self, step: Step) -> Self {
        match step {
            Step::Read(bytes) => PipelineView {
                reader: self.reader.after_read(bytes),
                queue: self.reader.queue_after_read(self.queue, bytes),
                render: self.render,
            },
            Step::ReadFailed => PipelineView {
                reader: self.reader.after_error(),
                queue: self.reader.queue_after_error(self.queue),
                render: self.render,
            },
            Step::Pull => PipelineView {
                reader: self.reader,
                queue: self.render.queue_after_pull(self.queue),
                render: self.render.after_pull(self.queue),
            },
        }
    }

    /// The pipeline after the steps `steps`, taken in order.
    pub open spec fn run(self, steps: Seq<Step>) -> Self
        decreases steps.len(),
    {
        if steps.len() == 0 {
            self
        } else {
            self.run(steps.drop_last()).step(steps.last())
        }
    }

    /// The samples that the pulls among `steps` yield, in order.
    pub open spec fn played(self, steps: Seq<Step>) -> Seq<i16>
        decreases steps.len(),
    {
        if steps.len() == 0 {
            Seq::empty()
        } else {
            let before = self.run(steps.drop_last());
            let earlier = self.played(steps.drop_last());
            match (steps.last(), before.render.pull(before.queue)) {
                (Step::Pull, Pull::Sample(sample)) => earlier.push(sample),
                _ => earlier,
            }
        }
    }

    /// What the next pull would yield.
    pub open spec fn next_pull(self) -> Pull {
        self.render.pull(self.queue)
    }
}

/// Whether one of the reads among `steps` reported the end of the stream or
/// failed.
pub open spec fn stream_closed(steps: Seq<Step>) -> bool
    decreases steps.len(),
{
    if steps.len() == 0 {
        false
    } else {
        stream_closed(steps.drop_last()) || match steps.last() {
            Step::Read(bytes) => bytes.len() == 0,
            Step::ReadFailed => true,
            Step::Pull => false,
        }
    }
}

/// The bytes of the stream that the reads among `steps` returned before the
/// stream was closed.
pub open spec fn received(steps: Seq<Step>) -> Seq<u8>
    decreases steps.len(),
{
    if steps.len() == 0 {
        Seq::empty()
    } else {
        match steps.last() {
            Step::Read(bytes) => if stream_closed(steps.drop_last()) {
                received(steps.drop_last())
            } else {
                received(steps.drop_last()) + bytes
            },
            _ => received(steps.drop_last()),
        }
    }
}

/// End to end: whatever the sizes of the chunks and however reads and pulls
/// take turns, the sink hears the samples of the stream in the order they
/// were sent, every two consecutive bytes making one sample, each with the
/// envelope of its position. What was not played yet waits in the queue,
/// nothing is lost or played twice, and the terminal signal comes exactly
/// when the stream is closed and its last sample has been played.
pub proof fn lemma_end_to_end(steps: Seq<Step>)
    ensures
        ({
            let pipeline = PipelineView::fresh().run(steps);
            let played = PipelineView::fresh().played(steps);
            let sent = decode_pairs(received(steps));
            &&& played.len() <= sent.len()
            &&& forall|k: int|
                0 <= k < played.len() ==> #[trigger] played[k] == faded(sent[k] as int, k as nat)
            &&& pipeline.queue.samples == sent.skip(played.len() as int)
            &&& pipeline.queue.done == stream_closed(steps)
            &&& pipeline.reader.finished == stream_closed(steps)
            &&& pipeline.reader.carry == unpaired(received(steps))
            &&& pipeline.render.emitted == count_after(0, played.len())
            &&& pipeline.render.ended ==> stream_closed(steps) && played.len() == sent.len()
            &&& pipeline.next_pull() == Pull::Ended <==> stream_closed(steps) && played.len()
                == sent.len()
        }),
    decreases steps.len(),
{
    let fresh = PipelineView::fresh();
    if steps.len() == 0 {
        assert(decode_pairs(received(steps)) =~= Seq::<i16>::empty());
        assert(fresh.queue.samples =~= decode_pairs(received(steps)).skip(0));
    } else {
        let earlier = steps.drop_last();
        lemma_end_to_end(earlier);
        let before = fresh.run(earlier);
        let after = fresh.run(steps);
        let played_before = fresh.played(earlier);
        let played = fresh.played(steps);
        let sent_before = decode_pairs(received(earlier));
        let sent = decode_pairs(received(steps));
        let k = played_before.len() as int;
        match steps.last() {
            Step::Read(bytes) => {
                if !stream_closed(earlier) && bytes.len() > 0 {
                    lemma_decode_split(received(earlier), bytes);
                    let more = decode_pairs(with_carry(before.reader.carry, bytes));
                    assert(sent == sent_before + more);
                    assert(after.queue.samples =~= sent.skip(k));
                    assert forall|j: int| 0 <= j < played.len() implies #[trigger] played[j]
                        == faded(sent[j] as int, j as nat) by {
                        assert(sent[j] == sent_before[j]);
                    }
                }
            },
            Step::ReadFailed => {},
            Step::Pull => {
                if !before.render.ended && before.queue.samples.len() > 0 {
                    let sample = before.queue.samples[0];
                    assert(sample == sent[k]);
                    assert(faded(sample as int, before.render.emitted as nat) == faded(
                        sample as int,
                        k as nat,
                    ));
                    assert(played == played_before.push(
                        faded(sample as int, k as nat) as i16,
                    ));
                    lemma_faded_is_bounded(sample as int, k as nat);
                    assert(after.queue.samples =~= sent.skip(k + 1));
                }
            },
        }
    }
}

} // verus!

//! The transport reader: turns the bytes of the network stream into samples.
//!
//! The payload is a run of little-endian 16-bit samples that arrives in chunks
//! of any size. A chunk may end in the middle of a sample, so the reader keeps
//! the unpaired byte and joins it with the first byte of the next chunk: the
//! samples that come out depend on the bytes of the stream alone, never on
//! where the chunks were cut.
//!
//! Reading from the network is the caller's business. After each read the
//! caller reports what happened, and the reader decodes, fills the queue, and
//! says whether to go on.

use crate::queue::{BufferView, LockFreeBuffer};
use vstd::prelude::*;

verus! {

/// Length of the header that precedes the samples and is skipped unread.
pub const WAV_HEADER_LEN: usize = 44;

/// Largest number of bytes asked of the network in one read.
pub const CHUNK_SIZE: usize = 4096;

/// The sample that two bytes stand for, low byte first, in two's complement.
pub open spec fn sample_from_le(lo: u8, hi: u8) -> i16 {
    let word = lo as int + 256 * (hi as int);
    if word < 32768 {
        word as i16
    } else {
        (word - 65536) as i16
    }
}

/// The samples that a run of bytes holds: one for each complete pair, in
/// order. An unpaired byte at the end stands for nothing yet.
pub open spec fn decode_pairs(bytes: Seq<u8>) -> Seq<i16> {
    Seq::new(bytes.len() / 2, |k: int| sample_from_le(bytes[2 * k], bytes[2 * k + 1]))
}

/// The byte that is left over after the complete pairs, if there is one.
pub open spec fn unpaired(bytes: Seq<u8>) -> Option<u8> {
    if bytes.len() % 2 == 1 {
        Some(bytes.last())
    } else {
        None
    }
}

/// A chunk with the byte carried over from the chunk before it in front.
pub open spec fn with_carry(carry: Option<u8>, chunk: Seq<u8>) -> Seq<u8> {
    match carry {
        Some(byte) => seq![byte] + chunk,
        None => chunk,
    }
}

/// The chunks of a stream, joined in order.
pub open spec fn joined(chunks: Seq<Seq<u8>>) -> Seq<u8>
    decreases chunks.len(),
{
    if chunks.len() == 0 {
        Seq::empty()
    } else {
        joined(chunks.drop_last()) + chunks.last()
    }
}

/// The byte carried over after the chunks `chunks` were decoded one by one.
pub open spec fn carry_after(chunks: Seq<Seq<u8>>) -> Option<u8>
    decreases chunks.len(),
{
    if chunks.len() == 0 {
        None
    } else {
        unpaired(with_carry(carry_after(chunks.drop_last()), chunks.last()))
    }
}

/// The samples that come out when the chunks `chunks` are decoded one by one,
/// each with the byte carried over from the one before.
pub open spec fn decoded_in_chunks(chunks: Seq<Seq<u8>>) -> Seq<i16>
    decreases chunks.len(),
{
    if chunks.len() == 0 {
        Seq::empty()
    } else {
        decoded_in_chunks(chunks.drop_last()) + decode_pairs(
            with_carry(carry_after(chunks.drop_last()), chunks.last()),
        )
    }
}

/// Decoding a run of bytes gives the same samples as decoding a first part of
/// it and then the rest with the carried byte in front.
pub proof fn lemma_decode_split(head: Seq<u8>, tail: Seq<u8>)
    ensures
        decode_pairs(head + tail) == decode_pairs(head) + decode_pairs(
            with_carry(unpaired(head), tail),
        ),
        unpaired(head + tail) == unpaired(with_carry(unpaired(head), tail)),
{
    let whole = head + tail;
    let rest = with_carry(unpaired(head), tail);
    let split = decode_pairs(head) + decode_pairs(rest);
    assert(decode_pairs(whole).len() == split.len());
    assert forall|k: int| 0 <= k < split.len() implies decode_pairs(whole)[k] == split[k] by {
        if k >= head.len() / 2 {
            let j = k - head.len() / 2;
            assert(split[k] == decode_pairs(rest)[j]);
            assert(whole[2 * k] == rest[2 * j]);
            assert(whole[2 * k + 1] == rest[2 * j + 1]);
        }
    }
    assert(decode_pairs(whole) =~= split);
    if whole.len() % 2 == 1 {
        assert(whole.last() == rest.last());
    }
}

/// Where the chunks are cut does not show: decoding a stream chunk by chunk
/// gives the samples of the stream taken as a whole, every two consecutive
/// bytes making one sample, and carries over the one byte that has no partner
/// yet.
pub proof fn lemma_chunking_is_invisible(chunks: Seq<Seq<u8>>)
    ensures
        decoded_in_chunks(chunks) == decode_pairs(joined(chunks)),
        carry_after(chunks) == unpaired(joined(chunks)),
    decreases chunks.len(),
{
    if chunks.len() == 0 {
        assert(decode_pairs(Seq::<u8>::empty()) =~= Seq::<i16>::empty());
    } else {
        lemma_chunking_is_invisible(chunks.drop_last());
        lemma_decode_split(joined(chunks.drop_last()), chunks.last());
    }
}

/// Decodes one sample from its two bytes, low byte first.
pub fn decode_sample(lo: u8, hi: u8) -> (sample: i16)
    ensures
        sample == sample_from_le(lo, hi),
{
    let word: i32 = lo as i32 + 256 * (hi as i32);
    if word < 32768 {
        word as i16
    } else {
        (word - 65536) as i16
    }
}

/// What the caller does after reporting a read.
#[derive(Clone, Copy, Debug, PartialEq, Eq, Structural)]
pub enum ReaderAction {
    /// Read the next chunk.
    Continue,
    /// The first bytes of the payload have arrived: report the milestone,
    /// then read the next chunk.
    FirstByte,
    /// The stream is over: stop reading.
    Stop,
}

/// A transport reader as a mathematical value.
pub struct ReaderView {
    /// The byte of the last chunk that has no partner yet.
    pub carry: Option<u8>,
    /// Whether any payload has arrived.
    pub started: bool,
    /// Whether the stream is over.
    pub finished: bool,
}

impl ReaderView {
    /// A reader that has seen nothing of the stream.
    pub open spec fn fresh() -> Self {
        ReaderView { carry: None, started: false, finished: false }
    }

    /// The reader after a read that returned `bytes`. A read of no bytes is
    /// the end of the stream.
    pub open spec fn after_read(self, bytes: Seq<u8>) -> Self {
        if self.finished {
            self
        } else if bytes.len() == 0 {
            ReaderView { carry: self.carry, started: self.started, finished: true }
        } else {
            ReaderView {
                carry: unpaired(with_carry(self.carry, bytes)),
                started: true,
                finished: false,
            }
        }
    }

    /// The queue after a read that returned `bytes`: the samples of the chunk
    /// are appended in order, or, at the end of the stream, the queue is
    /// marked complete. A reader that has finished leaves the queue alone.
    pub open spec fn queue_after_read(self, queue: BufferView, bytes: Seq<u8>) -> BufferView {
        if self.finished {
            queue
        } else if bytes.len() == 0 {
            queue.mark_done()
        } else {
            BufferView {
                samples: queue.samples + decode_pairs(with_carry(self.carry, bytes)),
                done: queue.done,
            }
        }
    }

    /// What the caller is told after a read that returned `bytes`.
    pub open spec fn action_on_read(self, bytes: Seq<u8>) -> ReaderAction {
        if self.finished || bytes.len() == 0 {
            ReaderAction::Stop
        } else if self.started {
            ReaderAction::Continue
        } else {
            ReaderAction::FirstByte
        }
    }

    /// The reader after a read that failed.
    pub open spec fn after_error(self) -> Self {
        ReaderView { carry: self.carry, started: self.started, finished: true }
    }

    /// The queue after a read that failed: marked complete, with what was
    /// buffered still in it. A reader that has finished leaves the queue alone.
    pub open spec fn queue_after_error(self, queue: BufferView) -> BufferView {
        if self.finished {
            queue
        } else {
            queue.mark_done()
        }
    }
}

/// Decoder state of the producer side of the pipeline.
pub struct TransportReader {
    carry: Option<u8>,
    started: bool,
    finished: bool,
}

impl View for TransportReader {
    type V = ReaderView;

    closed spec fn view(&self) -> ReaderView {
        ReaderView { carry: self.carry, started: self.started, finished: self.finished }
    }
}

impl TransportReader {
    /// Creates a reader for a stream of which nothing has been read.
    pub fn new() -> (reader: Self)
        ensures
            reader@ == ReaderView::fresh(),
    {
        TransportReader { carry: None, started: false, finished: false }
    }

    /// Whether the stream is over.
    pub fn is_finished(&self) -> (b: bool)
        ensures
            b == self@.finished,
    {
        self.finished
    }

    /// Takes the bytes that one read returned. An empty slice is the end of
    /// the stream: the queue is marked complete and the reader stops. Any
    /// other chunk is decoded, together with the byte carried over from the
    /// chunk before, and its samples are pushed in order.
    pub fn on_read(&mut self, bytes: &[u8], queue: &mut LockFreeBuffer) -> (action: ReaderAction)
        ensures
            action == old(self)@.action_on_read(bytes@),
            final(self)@ == old(self)@.after_read(bytes@),
            final(queue)@ == old(self)@.queue_after_read(old(queue)@, bytes@),
    {
        if self.finished {
            return ReaderAction::Stop;
        }
        if bytes.len() == 0 {
            self.finished = true;
            queue.set_done();
            return ReaderAction::Stop;
        }
        let ghost before = queue@;
        let ghost pending = with_carry(self.carry, bytes@);
        let ghost lead: int = if self.carry is Some { 1 } else { 0 };
        let mut next: usize = 0;
        match self.carry {
            Some(lo) => {
                queue.push(decode_sample(lo, bytes[0]));
                next = 1;
                assert(queue@.samples =~= before.samples + decode_pairs(pending.take(2)));
            },
            None => {
                assert(queue@.samples =~= before.samples + decode_pairs(pending.take(0)));
            },
        }
        while bytes.len() - next >= 2
            invariant
                next <= bytes.len(),
                pending == with_carry(old(self)@.carry, bytes@),
                lead == pending.len() - bytes.len(),
                (lead + next) % 2 == 0,
                queue@.samples == before.samples + decode_pairs(pending.take(lead + next)),
                queue@.done == before.done,
            decreases bytes.len() - next,
        {
            queue.push(decode_sample(bytes[next], bytes[next + 1]));
            proof {
                let seen = lead + next;
                assert(pending[seen] == bytes@[next as int]);
                assert(pending[seen + 1] == bytes@[next + 1]);
                assert(decode_pairs(pending.take(seen + 2)) =~= decode_pairs(
                    pending.take(seen),
                ).push(sample_from_le(pending[seen], pending[seen + 1])));
            }
            next = next + 2;
        }
        proof {
            assert(decode_pairs(pending) =~= decode_pairs(pending.take(lead + next)));
        }
        if next < bytes.len() {
            self.carry = Some(bytes[next]);
        } else {
            self.carry = None;
        }
        let action = if self.started {
            ReaderAction::Continue
        } else {
            ReaderAction::FirstByte
        };
        self.started = true;
        action
    }

    /// Takes the news that a read failed. A failure in the middle of a stream
    /// ends it like an ordinary end: the queue is marked complete, and what
    /// was buffered is still played.
    pub fn on_error(&mut self, queue: &mut LockFreeBuffer) -> (action: ReaderAction)
        ensures
            action == ReaderAction::Stop,
            final(self)@ == old(self)@.after_error(),
            final(queue)@ == old(self)@.queue_after_error(old(queue)@),
    {
        if !self.finished {
            self.finished = true;
            queue.set_done();
        }
        ReaderAction::Stop
    }
}

} // verus!

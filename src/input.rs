use std::collections::VecDeque;
use vstd::prelude::*;
use vstd::slice::{slice_subrange, slice_to_vec};

verus! {

/// The first `n` bytes a read placed in `buf`, as a chunk of its own.
pub fn chunk_of(buf: &[u8], n: usize) -> (r: Vec<u8>)
    requires
        n <= buf@.len(),
    ensures
        r@ == buf@.subrange(0, n as int),
{
    slice_to_vec(slice_subrange(buf, 0, n))
}

/// The chunks that every client's input pump hands in, in arrival order. Its
/// one consumer takes them out oldest first, each exactly as it came in.
pub struct InputQueue {
    chunks: VecDeque<Vec<u8>>,
}

impl InputQueue {
    /// The queued chunks, oldest first.
    pub closed spec fn view(&self) -> Seq<Seq<u8>> {
        self.chunks@.map_values(|c: Vec<u8>| c@)
    }

    pub fn new() -> (r: InputQueue)
        ensures
            r@ == Seq::<Seq<u8>>::empty(),
    {
        let r = InputQueue { chunks: VecDeque::new() };
        assert(r@ =~= Seq::<Seq<u8>>::empty());
        r
    }

    /// The number of queued chunks.
    pub fn len(&self) -> (r: usize)
        ensures
            r == self@.len(),
    {
        self.chunks.len()
    }

    pub fn is_empty(&self) -> (r: bool)
        ensures
            r == (self@.len() == 0),
    {
        self.chunks.len() == 0
    }

    /// Queues one chunk behind all others.
    pub fn push(&mut self, chunk: Vec<u8>)
        ensures
            final(self)@ == old(self)@.push(chunk@),
    {
        self.chunks.push_back(chunk);
        assert(self@ =~= old(self)@.push(chunk@));
    }

    /// Takes out the oldest chunk, unchanged; `None` when nothing is queued.
    pub fn pop(&mut self) -> (r: Option<Vec<u8>>)
        ensures
            old(self)@.len() == 0 ==> r.is_none() && final(self)@ == old(self)@,
            old(self)@.len() > 0 ==> r.is_some() && r.unwrap()@ == old(self)@[0] && final(self)@
                == old(self)@.drop_first(),
    {
        let r = self.chunks.pop_front();
        if r.is_some() {
            assert(self@ =~= old(self)@.drop_first());
        }
        r
    }
}

/// How one attempt to write to the terminal went.
pub enum WriteOutcome {
    /// The writer accepted this many bytes.
    Wrote(usize),
    /// The write failed.
    Failed,
}

/// What the consumer does after a write attempt.
#[derive(PartialEq, Eq, Structural, Clone, Copy, Debug)]
pub enum WriteStep {
    /// Some of the chunk remains: write `remaining()` next.
    More,
    /// The whole chunk has been written.
    Done,
    /// The writer failed or accepted nothing; the chunk is abandoned.
    Failed,
}

/// Writes one chunk through a writer that may take fewer bytes than offered,
/// so that the chunk reaches the terminal whole and in order before anything
/// else is written.
pub struct ChunkWriter {
    chunk: Vec<u8>,
    written: usize,
}

impl ChunkWriter {
    /// The chunk being written.
    pub closed spec fn chunk(&self) -> Seq<u8> {
        self.chunk@
    }

    /// How many of its bytes the writer has taken so far.
    pub closed spec fn written(&self) -> nat {
        self.written as nat
    }

    pub open spec fn wf(&self) -> bool {
        self.written() <= self.chunk().len()
    }

    /// The bytes the writer has taken so far: always the front of the chunk.
    pub open spec fn sent(&self) -> Seq<u8> {
        self.chunk().subrange(0, self.written() as int)
    }

    pub fn new(chunk: Vec<u8>) -> (r: ChunkWriter)
        ensures
            r.wf(),
            r.chunk() == chunk@,
            r.written() == 0,
    {
        ChunkWriter { chunk, written: 0 }
    }

    /// Whether the whole chunk has been written.
    pub fn is_done(&self) -> (r: bool)
        requires
            self.wf(),
        ensures
            r == (self.written() == self.chunk().len()),
    {
        self.written == self.chunk.len()
    }

    /// The bytes still to be written, in order.
    pub fn remaining(&self) -> (r: &[u8])
        requires
            self.wf(),
        ensures
            r@ == self.chunk().subrange(self.written() as int, self.chunk().len() as int),
            self.sent() + r@ == self.chunk(),
    {
        let r = slice_subrange(self.chunk.as_slice(), self.written, self.chunk.len());
        assert(self.sent() + r@ =~= self.chunk());
        r
    }

    /// Records how a write of `remaining()` went. A write that takes between
    /// one byte and all that remains moves the chunk on; one that takes
    /// nothing, claims more than was offered, or fails gives `Failed` and
    /// leaves the progress as it was.
    pub fn record(&mut self, outcome: WriteOutcome) -> (r: WriteStep)
        requires
            old(self).wf(),
        ensures
            final(self).wf(),
            final(self).chunk() == old(self).chunk(),
            match outcome {
                WriteOutcome::Wrote(n) => if 0 < n <= old(self).chunk().len() - old(self).written() {
                    &&& final(self).written() == old(self).written() + n
                    &&& r == (if final(self).written() == final(self).chunk().len() {
                        WriteStep::Done
                    } else {
                        WriteStep::More
                    })
                } else {
                    r == WriteStep::Failed && final(self).written() == old(self).written()
                },
                WriteOutcome::Failed => r == WriteStep::Failed && final(self).written() == old(
                    self,
                ).written(),
            },
    {
        match outcome {
            WriteOutcome::Wrote(n) => {
                if n == 0 || n > self.chunk.len() - self.written {
                    WriteStep::Failed
                } else {
                    self.written = self.written + n;
                    if self.written == self.chunk.len() {
                        WriteStep::Done
                    } else {
                        WriteStep::More
                    }
                }
            },
            WriteOutcome::Failed => WriteStep::Failed,
        }
    }
}

/// A write that takes `n` bytes of what `remaining()` offered extends what
/// the writer has been handed by exactly those bytes, so the writes of one
/// chunk hand over its bytes contiguously and in order; once the chunk is done
/// the writer has been handed exactly the chunk.
pub proof fn lemma_writes_hand_over_chunk_in_order(before: &ChunkWriter, after: &ChunkWriter, n: nat)
    requires
        before.wf(),
        after.wf(),
        after.chunk() == before.chunk(),
        after.written() == before.written() + n,
    ensures
        after.sent() == before.sent() + before.chunk().subrange(
            before.written() as int,
            before.chunk().len() as int,
        ).take(n as int),
        after.written() == after.chunk().len() ==> after.sent() == after.chunk(),
{
    assert(after.sent() =~= before.sent() + before.chunk().subrange(
        before.written() as int,
        before.chunk().len() as int,
    ).take(n as int));
    assert(after.written() == after.chunk().len() ==> after.sent() =~= after.chunk());
}

} // verus!

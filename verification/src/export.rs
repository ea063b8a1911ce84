//! Arrow exports: cutting the byte stream into chunks of bounded size.

use vstd::prelude::*;

verus! {

/// Size of a full chunk in bytes.
pub const ARROW_CHUNK_SIZE: usize = 262_144;

/// Chunks that wait for the client at most.
pub const ARROW_CHANNEL_CAPACITY: usize = 2;

/// How long the first chunk may take, in seconds.
pub const ARROW_START_TIMEOUT_SECS: u64 = 20;

/// Content type of an Arrow export.
pub const ARROW_CONTENT_TYPE: &'static str = "application/vnd.apache.arrow.stream";

/// Content disposition of an Arrow export.
pub const ARROW_CONTENT_DISPOSITION: &'static str = "attachment; filename=\"trades.arrow\"";

/// The state of a [`ChunkWriter`]: what was handed out in chunks, and what waits
/// for the next one.
#[verifier::ext_equal]
pub struct ChunkState {
    pub sent: Seq<u8>,
    pub buffered: Seq<u8>,
}

impl ChunkState {
    /// Everything that was written.
    pub open spec fn written(self) -> Seq<u8> {
        self.sent + self.buffered
    }
}

/// Collects bytes and hands them out in chunks.
pub struct ChunkWriter {
    buffer: Vec<u8>,
    sent_bytes: usize,
    sent: Ghost<Seq<u8>>,
}

impl View for ChunkWriter {
    type V = ChunkState;

    closed spec fn view(&self) -> ChunkState {
        ChunkState { sent: self.sent@, buffered: self.buffer@ }
    }
}

/// Bytes of `bytes` that fit next to what is buffered.
pub open spec fn fitting(state: ChunkState, bytes: Seq<u8>) -> nat {
    let room = (ARROW_CHUNK_SIZE - state.buffered.len()) as nat;
    if bytes.len() < room {
        bytes.len()
    } else {
        room
    }
}

impl ChunkWriter {
    /// The bytes handed out are counted.
    pub closed spec fn counts_sent(&self) -> bool {
        self.sent_bytes == if self.sent@.len() > usize::MAX {
            usize::MAX as int
        } else {
            self.sent@.len() as int
        }
    }

    /// Less than one chunk waits, and the bytes handed out are counted.
    pub open spec fn wf(&self) -> bool {
        self@.buffered.len() < ARROW_CHUNK_SIZE && self.counts_sent()
    }

    /// A writer to which nothing was written.
    pub fn new() -> (writer: ChunkWriter)
        ensures
            writer.wf(),
            writer@.buffered.len() < ARROW_CHUNK_SIZE,
            writer@ == (ChunkState { sent: Seq::empty(), buffered: Seq::empty() }),
    {
        ChunkWriter { buffer: Vec::new(), sent_bytes: 0, sent: Ghost(Seq::empty()) }
    }

    /// Bytes that were handed out in chunks.
    pub fn sent_bytes(&self) -> (count: usize)
        requires
            self.wf(),
        ensures
            count == if self@.sent.len() > usize::MAX {
                usize::MAX as int
            } else {
                self@.sent.len() as int
            },
    {
        self.sent_bytes
    }

    /// Hand out what is buffered, if anything is.
    pub fn flush(&mut self) -> (chunk: Option<Vec<u8>>)
        requires
            old(self).wf(),
        ensures
            final(self).wf(),
            final(self)@.buffered.len() < ARROW_CHUNK_SIZE,
            old(self)@.buffered.len() == 0 ==> chunk is None && final(self)@ == old(self)@,
            old(self)@.buffered.len() > 0 ==> {
                &&& chunk matches Some(bytes)
                &&& bytes@ == old(self)@.buffered
                &&& final(self)@ == (ChunkState {
                    sent: old(self)@.written(),
                    buffered: Seq::empty(),
                })
            },
    {
        if self.buffer.len() == 0 {
            return None;
        }
        Some(self.take_buffer())
    }

    fn take_buffer(&mut self) -> (chunk: Vec<u8>)
        requires
            old(self).counts_sent(),
        ensures
            final(self).wf(),
            chunk@ == old(self)@.buffered,
            final(self)@ == (ChunkState { sent: old(self)@.written(), buffered: Seq::empty() }),
    {
        let mut chunk: Vec<u8> = Vec::new();
        std::mem::swap(&mut chunk, &mut self.buffer);
        self.sent_bytes = self.sent_bytes.saturating_add(chunk.len());
        self.sent = Ghost(self.sent@ + chunk@);
        chunk
    }

    /// Take in as many bytes as fit, and hand out the chunk that they complete, if
    /// they do. Returns how many were taken; the caller comes back with the rest.
    pub fn fill(&mut self, bytes: &[u8]) -> (result: (usize, Option<Vec<u8>>))
        requires
            old(self).wf(),
        ensures
            final(self).wf(),
            final(self)@.buffered.len() < ARROW_CHUNK_SIZE,
            result.0 == fitting(old(self)@, bytes@),
            bytes@.len() > 0 ==> result.0 > 0,
            final(self)@.written() == old(self)@.written() + bytes@.take(result.0 as int),
            old(self)@.buffered.len() + result.0 == ARROW_CHUNK_SIZE ==> {
                &&& result.1 matches Some(chunk)
                &&& chunk@ == old(self)@.buffered + bytes@.take(result.0 as int)
                &&& chunk@.len() == ARROW_CHUNK_SIZE
                &&& final(self)@.buffered.len() == 0
            },
            old(self)@.buffered.len() + result.0 < ARROW_CHUNK_SIZE ==> result.1 is None
                && final(self)@.sent == old(self)@.sent,
    {
        let ghost before = self@;
        let available: usize = ARROW_CHUNK_SIZE - self.buffer.len();
        let copied: usize = if bytes.len() < available {
            bytes.len()
        } else {
            available
        };
        let (head, _rest) = bytes.split_at(copied);
        self.buffer.extend_from_slice(head);
        assert(head@ =~= bytes@.take(copied as int));
        assert(self.buffer@ =~= before.buffered + head@);
        if self.buffer.len() == ARROW_CHUNK_SIZE {
            let chunk = self.take_buffer();
            assert(self@.written() =~= before.written() + bytes@.take(copied as int));
            (copied, Some(chunk))
        } else {
            assert(self@.written() =~= before.written() + bytes@.take(copied as int));
            (copied, None)
        }
    }

    /// Take in all of `bytes`. Returns the chunks that they complete, in order.
    pub fn write(&mut self, bytes: &[u8]) -> (chunks: Vec<Vec<u8>>)
        requires
            old(self).wf(),
        ensures
            final(self).wf(),
            final(self)@.buffered.len() < ARROW_CHUNK_SIZE,
            final(self)@.written() == old(self)@.written() + bytes@,
            final(self)@.sent == old(self)@.sent + joined(chunks@),
            forall|i: int|
                0 <= i < chunks@.len() ==> (#[trigger] chunks@[i])@.len() == ARROW_CHUNK_SIZE,
    {
        let ghost before = self@;
        let mut chunks: Vec<Vec<u8>> = Vec::new();
        let mut done: usize = 0;
        assert(bytes@.take(0) =~= Seq::<u8>::empty());
        assert(before.written() + bytes@.take(0) =~= before.written());
        assert(before.sent + joined(chunks@) =~= before.sent);
        while done < bytes.len()
            invariant
                self.wf(),
                done <= bytes@.len(),
                self@.written() == before.written() + bytes@.take(done as int),
                self@.sent == before.sent + joined(chunks@),
                forall|i: int|
                    0 <= i < chunks@.len() ==> (#[trigger] chunks@[i])@.len() == ARROW_CHUNK_SIZE,
            decreases bytes@.len() - done,
        {
            let ghost prior = self@;
            let ghost earlier = chunks@;
            let (_head, rest) = bytes.split_at(done);
            let (copied, chunk) = self.fill(rest);
            proof {
                assert(rest@ =~= bytes@.skip(done as int));
                assert(bytes@.take(done as int) + rest@.take(copied as int) =~= bytes@.take(
                    done + copied,
                ));
            }
            match chunk {
                Some(full) => {
                    chunks.push(full);
                    proof {
                        assert(chunks@.drop_last() =~= earlier);
                        assert(self@.written() =~= self@.sent);
                        assert(prior.written() + rest@.take(copied as int) =~= prior.sent + (
                        prior.buffered + rest@.take(copied as int)));
                        assert(self@.sent =~= before.sent + joined(chunks@));
                    }
                },
                None => {},
            }
            proof {
                assert(self@.written() =~= before.written() + bytes@.take(done + copied));
            }
            done = done + copied;
        }
        assert(bytes@.take(done as int) =~= bytes@);
        chunks
    }
}

/// Chunks put together again.
pub open spec fn joined(chunks: Seq<Vec<u8>>) -> Seq<u8>
    decreases chunks.len(),
{
    if chunks.len() == 0 {
        Seq::empty()
    } else {
        joined(chunks.drop_last()) + chunks.last()@
    }
}

/// Nothing is lost, doubled or reordered: the chunks of a write and of the flush
/// after it are, put together, what had been waiting and what was written.
pub proof fn law_chunks_are_the_stream(
    before: ChunkState,
    bytes: Seq<u8>,
    chunks: Seq<Vec<u8>>,
    between: ChunkState,
    last: Seq<u8>,
    after: ChunkState,
)
    requires
        between.written() == before.written() + bytes,
        between.sent == before.sent + joined(chunks),
        last == between.buffered,
        after == (ChunkState { sent: between.written(), buffered: Seq::empty() }),
    ensures
        joined(chunks) + last == before.buffered + bytes,
        after.sent == before.written() + bytes,
{
    let total = before.sent + (before.buffered + bytes);
    assert(before.written() + bytes =~= total);
    assert(between.written() =~= before.sent + (joined(chunks) + last));
    let n = before.sent.len() as int;
    assert(total.skip(n) =~= before.buffered + bytes);
    assert(between.written().skip(n) =~= joined(chunks) + last);
}

proof fn lemma_joined_at(chunks: Seq<Vec<u8>>, i: int, k: int)
    requires
        forall|j: int| 0 <= j < chunks.len() ==> (#[trigger] chunks[j])@.len() == 262_144,
    ensures
        joined(chunks).len() == 262_144 * chunks.len(),
        0 <= i < chunks.len() && 0 <= k < 262_144 ==> joined(chunks)[262_144 * i + k]
            == chunks[i]@[k],
    decreases chunks.len(),
{
    if chunks.len() > 0 {
        let front = chunks.drop_last();
        assert forall|j: int| 0 <= j < front.len() implies (#[trigger] front[j])@.len()
            == 262_144 by {
            assert(chunks[j]@.len() == 262_144);
        }
        assert(chunks[chunks.len() - 1]@.len() == 262_144);
        lemma_joined_at(front, i, k);
        if 0 <= i < front.len() {
            assert(front[i] == chunks[i]);
        }
    }
}

/// A new writer holds nothing and has handed nothing out.
pub proof fn law_new_writers_are_empty(writer: ChunkWriter, count: usize)
    requires
        call_ensures(ChunkWriter::new, (), writer),
        call_ensures(ChunkWriter::sent_bytes, (&writer,), count),
    ensures
        writer@.buffered.len() == 0,
        writer@.sent.len() == 0,
        count == 0,
{
}

/// Chunks of 262144 bytes carry what was waiting and what is written, byte by byte and in
/// order; what is left waits, and is less than one chunk.
pub proof fn law_chunks_carry_what_is_written(
    writer: &mut ChunkWriter,
    bytes: &[u8],
    chunks: Vec<Vec<u8>>,
    i: int,
    k: int,
)
    requires
        call_ensures(ChunkWriter::write, (writer, bytes), chunks),
    ensures
        0 <= i < chunks@.len() ==> chunks@[i]@.len() == 262_144,
        0 <= i < chunks@.len() && 0 <= k < 262_144 ==> chunks@[i]@[k] == (old(writer)@.buffered
            + bytes@)[262_144 * i + k],
        final(writer)@.buffered == (old(writer)@.buffered + bytes@).skip(
            262_144 * chunks@.len() as int,
        ),
        final(writer)@.buffered.len() < 262_144,
        262_144 * chunks@.len() <= old(writer)@.buffered.len() + bytes@.len(),
        final(writer)@.sent.len() == old(writer)@.sent.len() + 262_144 * chunks@.len(),
{
    let before = old(writer)@;
    let after = final(writer)@;
    let input = before.buffered + bytes@;
    lemma_joined_at(chunks@, i, k);
    let total = before.sent + input;
    assert(before.written() + bytes@ =~= total);
    assert(after.written() =~= before.sent + (joined(chunks@) + after.buffered));
    let n = before.sent.len() as int;
    assert(total.skip(n) =~= input);
    assert(after.written().skip(n) =~= joined(chunks@) + after.buffered);
    assert(input == joined(chunks@) + after.buffered);
    assert(input.skip(262_144 * chunks@.len() as int) =~= after.buffered);
    if 0 <= i < chunks@.len() && 0 <= k < 262_144 {
        assert(262_144 * i + k < 262_144 * chunks@.len());
        assert(joined(chunks@)[262_144 * i + k] == input[262_144 * i + k]);
    }
}

/// What waits goes out with a flush, all of it and once; a flush of nothing hands out
/// nothing.
pub proof fn law_flush_hands_out_the_rest(writer: &mut ChunkWriter, chunk: Option<Vec<u8>>)
    requires
        call_ensures(ChunkWriter::flush, (writer,), chunk),
    ensures
        chunk is Some <==> old(writer)@.buffered.len() > 0,
        chunk matches Some(bytes) ==> bytes@ == old(writer)@.buffered,
        final(writer)@.buffered.len() == 0,
        final(writer)@.sent == old(writer)@.sent + old(writer)@.buffered,
{
    assert(old(writer)@.sent + Seq::<u8>::empty() =~= old(writer)@.sent);
    if old(writer)@.buffered.len() == 0 {
        assert(old(writer)@.buffered =~= Seq::<u8>::empty());
    }
}

/// One step takes as many bytes as complete a chunk, or all of them, and hands a chunk out
/// if and only if it is complete.
pub proof fn law_steps_complete_chunks(
    writer: &mut ChunkWriter,
    bytes: &[u8],
    result: (usize, Option<Vec<u8>>),
)
    requires
        old(writer).wf(),
        call_ensures(ChunkWriter::fill, (writer, bytes), result),
    ensures
        result.0 <= bytes@.len(),
        result.1 is None ==> result.0 == bytes@.len() && final(writer)@.buffered
            == old(writer)@.buffered + bytes@ && final(writer)@.buffered.len() < 262_144,
        result.1 matches Some(chunk) ==> chunk@.len() == 262_144 && chunk@ == old(writer)@.buffered
            + bytes@.take(result.0 as int) && final(writer)@.buffered.len() == 0,
        old(writer)@.buffered.len() + bytes@.len() >= 262_144 ==> result.1 is Some,
{
    let before = old(writer)@;
    let after = final(writer)@;
    if before.buffered.len() + result.0 < ARROW_CHUNK_SIZE {
        assert(bytes@.take(result.0 as int) =~= bytes@);
        let total = before.sent + (before.buffered + bytes@);
        assert(before.written() + bytes@ =~= total);
        let n = before.sent.len() as int;
        assert(total.skip(n) =~= before.buffered + bytes@);
        assert(after.written().skip(n) =~= after.buffered);
    }
}

/// Bytes are counted as they are handed out.
pub proof fn law_sent_bytes_are_counted(writer: ChunkWriter, count: usize)
    requires
        call_ensures(ChunkWriter::sent_bytes, (&writer,), count),
        writer@.sent.len() <= usize::MAX,
    ensures
        count == writer@.sent.len(),
{
}

/// An export holds half a megabyte for a slow client at most, has twenty seconds to start,
/// and is offered as a file in the Arrow stream format.
pub proof fn law_exports_are_bounded()
    ensures
        ARROW_CHANNEL_CAPACITY * ARROW_CHUNK_SIZE == 512 * 1024,
        ARROW_CHANNEL_CAPACITY == 2,
        ARROW_START_TIMEOUT_SECS == 20,
        ARROW_CONTENT_TYPE@ == "application/vnd.apache.arrow.stream"@,
        ARROW_CONTENT_DISPOSITION@ == "attachment; filename=\"trades.arrow\""@,
{
}

} // verus!

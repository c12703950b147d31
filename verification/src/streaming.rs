use vstd::prelude::*;

verus! {

/// Bytes received so far by a download, and whether the download is over.
///
/// The download side appends chunks with [`StreamingBuffer::push`] and ends
/// with [`StreamingBuffer::mark_complete`] (or [`StreamingBuffer::mark_error`]);
/// readers walk the bytes with a [`StreamingReader`] cursor of their own.
pub struct StreamingBuffer {
    bytes: Vec<u8>,
    complete: bool,
}

/// A reader's position in a [`StreamingBuffer`].
pub struct StreamingReader {
    pos: usize,
}

/// Where a seek is measured from, with its signed or unsigned offset.
#[derive(Clone, Copy, Debug, PartialEq, Eq)]
pub enum SeekFrom {
    Start(u64),
    End(i64),
    Current(i64),
}

/// What one read attempt did.
#[derive(Clone, Copy, Debug, PartialEq, Eq)]
pub enum ReadStep {
    /// This many bytes were copied to the front of the caller's buffer.
    Data(usize),
    /// The reader is at the end of a finished download.
    EndOfStream,
    /// Nothing to read yet: wait for the download and try again.
    Pending,
}

/// What one seek attempt did.
#[derive(Clone, Copy, Debug, PartialEq, Eq)]
pub enum SeekStep {
    /// The reader now stands at this position.
    Settled(u64),
    /// The target lies past the downloaded bytes: wait for more data, then
    /// settle on this target with [`StreamingReader::settle`].
    AwaitData(usize),
    /// A seek from the end needs the final length: wait until the download
    /// is complete and seek again.
    AwaitCompletion,
}

/// `a - b`, or 0 where `b` is the larger.
pub open spec fn sat_sub(a: int, b: int) -> int {
    if a >= b {
        a - b
    } else {
        0
    }
}

/// The smaller of two integers.
pub open spec fn min_int(a: int, b: int) -> int {
    if a <= b {
        a
    } else {
        b
    }
}

/// The position that an offset `n` from `base` names: forward without
/// limit, backward no further than 0.
pub open spec fn offset_from(base: int, n: i64) -> int {
    if n >= 0 {
        base + (n as usize) as int
    } else {
        sat_sub(base, ((-n) as usize) as int)
    }
}

/// An offset from `base` that can be computed without overflow.
pub open spec fn offset_in_range(base: int, n: i64) -> bool {
    if n >= 0 {
        base + (n as usize) as int <= usize::MAX
    } else {
        n > i64::MIN
    }
}

/// The target that `from` names for a reader at `pos` in a stream of
/// `total` bytes.
pub open spec fn seek_target(pos: int, total: int, from: SeekFrom) -> int {
    match from {
        SeekFrom::Start(n) => (n as usize) as int,
        SeekFrom::Current(n) => offset_from(pos, n),
        SeekFrom::End(n) => offset_from(total, n),
    }
}

/// A seek that the reader can compute without overflow; a seek from the
/// end computes nothing before the download is complete.
pub open spec fn seek_in_range(pos: int, total: int, done: bool, from: SeekFrom) -> bool {
    match from {
        SeekFrom::Start(_) => true,
        SeekFrom::Current(n) => offset_in_range(pos, n),
        SeekFrom::End(n) => done ==> offset_in_range(total, n),
    }
}

/// The number of bytes one read hands out: as many as fit, of those
/// buffered past `pos`.
pub open spec fn read_amount(len: int, pos: int, cap: int) -> int {
    min_int(cap, sat_sub(len, pos))
}

/// What a read at `pos` with room for `cap` bytes yields, over buffered
/// `data` of a download that is `done` or not.
pub open spec fn read_outcome(data: Seq<u8>, done: bool, pos: int, cap: int) -> ReadStep {
    if pos < data.len() {
        ReadStep::Data(read_amount(data.len() as int, pos, cap) as usize)
    } else if done {
        ReadStep::EndOfStream
    } else {
        ReadStep::Pending
    }
}

/// The bytes that reads with room for `caps[0]`, `caps[1]`, ... bytes hand
/// out in turn, from `pos` in `data`, and the position after them.
pub open spec fn reads_from(data: Seq<u8>, pos: int, caps: Seq<int>) -> (Seq<u8>, int)
    decreases caps.len(),
{
    if caps.len() == 0 {
        (Seq::empty(), pos)
    } else {
        let (out, p) = reads_from(data, pos, caps.drop_last());
        if p < data.len() {
            let n = read_amount(data.len() as int, p, caps.last());
            (out + data.subrange(p, p + n), p + n)
        } else {
            (out, p)
        }
    }
}

/// The total room of a run of reads.
pub open spec fn total_room(caps: Seq<int>) -> int
    decreases caps.len(),
{
    if caps.len() == 0 {
        0
    } else {
        total_room(caps.drop_last()) + caps.last()
    }
}

proof fn lemma_total_room_nonneg(caps: Seq<int>)
    requires
        forall|i: int| 0 <= i < caps.len() ==> caps[i] >= 0,
    ensures
        total_room(caps) >= 0,
    decreases caps.len(),
{
    if caps.len() > 0 {
        let rest = caps.drop_last();
        assert forall|i: int| 0 <= i < rest.len() implies rest[i] >= 0 by {
            assert(rest[i] == caps[i]);
        }
        lemma_total_room_nonneg(rest);
        assert(caps.last() == caps[caps.len() - 1]);
    }
}

/// Reads of any sizes, from a position, hand out exactly the buffered bytes
/// from there, in order, as many as the reads had room for: a reader gives
/// back what was pushed, every byte once.
pub proof fn lemma_reads_give_back_pushed_bytes(data: Seq<u8>, pos: int, caps: Seq<int>)
    requires
        0 <= pos <= data.len(),
        forall|i: int| 0 <= i < caps.len() ==> caps[i] >= 0,
    ensures
        ({
            let end = min_int(data.len() as int, pos + total_room(caps));
            &&& reads_from(data, pos, caps).0 == data.subrange(pos, end)
            &&& reads_from(data, pos, caps).1 == end
        }),
    decreases caps.len(),
{
    if caps.len() > 0 {
        let rest = caps.drop_last();
        assert forall|i: int| 0 <= i < rest.len() implies rest[i] >= 0 by {
            assert(rest[i] == caps[i]);
        }
        lemma_reads_give_back_pushed_bytes(data, pos, rest);
        lemma_total_room_nonneg(rest);
        let (out, p) = reads_from(data, pos, rest);
        assert(caps.last() == caps[caps.len() - 1]);
        if p < data.len() {
            let n = read_amount(data.len() as int, p, caps.last());
            assert(data.subrange(pos, p) + data.subrange(p, p + n) =~= data.subrange(pos, p + n));
        }
    } else {
        assert(data.subrange(pos, pos) =~= Seq::<u8>::empty());
    }
}

/// Reads with room for at least the bytes left, after the download is
/// complete, hand out the whole rest of the stream and then report its end.
pub proof fn lemma_reads_drain_complete_stream(data: Seq<u8>, pos: int, caps: Seq<int>, cap: int)
    requires
        0 <= pos <= data.len(),
        forall|i: int| 0 <= i < caps.len() ==> caps[i] >= 0,
        pos + total_room(caps) >= data.len(),
    ensures
        reads_from(data, pos, caps).0 == data.subrange(pos, data.len() as int),
        read_outcome(data, true, reads_from(data, pos, caps).1, cap) == ReadStep::EndOfStream,
{
    lemma_reads_give_back_pushed_bytes(data, pos, caps);
}

/// A read waiting at the end of the buffered bytes hands out the first of
/// the bytes that a push brings, and reports the end once the download is
/// marked complete or failed.
pub proof fn lemma_push_wakes_waiting_read(data: Seq<u8>, chunk: Seq<u8>, cap: int)
    requires
        chunk.len() > 0,
        cap > 0,
    ensures
        read_outcome(data, false, data.len() as int, cap) == ReadStep::Pending,
        ({
            let n = read_amount((data + chunk).len() as int, data.len() as int, cap);
            &&& n >= 1
            &&& read_outcome(data + chunk, false, data.len() as int, cap) == ReadStep::Data(n as usize)
            &&& (data + chunk).subrange(data.len() as int, data.len() + n) == chunk.subrange(0, n)
        }),
        read_outcome(data, true, data.len() as int, cap) == ReadStep::EndOfStream,
{
    let n = read_amount((data + chunk).len() as int, data.len() as int, cap);
    assert((data + chunk).subrange(data.len() as int, data.len() + n) =~= chunk.subrange(0, n));
}

/// A change that the download side makes to a buffer.
#[derive(Clone, Copy, Debug, PartialEq, Eq)]
pub enum BufferOp {
    Push,
    MarkComplete,
    MarkError,
}

/// The bytes and completion after one change: a push appends its chunk,
/// a mark ends the download.
pub open spec fn buffer_step(data: Seq<u8>, done: bool, op: BufferOp, chunk: Seq<u8>) -> (Seq<u8>, bool) {
    match op {
        BufferOp::Push => (data + chunk, done),
        BufferOp::MarkComplete => (data, true),
        BufferOp::MarkError => (data, true),
    }
}

/// The bytes and completion of a new buffer after a history of changes;
/// `chunks[i]` is the chunk of `ops[i]` where that is a push.
pub open spec fn buffer_after(ops: Seq<BufferOp>, chunks: Seq<Seq<u8>>) -> (Seq<u8>, bool)
    decreases ops.len(),
{
    if ops.len() == 0 {
        (Seq::empty(), false)
    } else {
        let (d, c) = buffer_after(ops.drop_last(), chunks);
        buffer_step(d, c, ops.last(), chunks[ops.len() - 1])
    }
}

/// The chunks of the pushes of a history, laid end to end in call order.
pub open spec fn pushed_bytes(ops: Seq<BufferOp>, chunks: Seq<Seq<u8>>) -> Seq<u8>
    decreases ops.len(),
{
    if ops.len() == 0 {
        Seq::empty()
    } else {
        pushed_bytes(ops.drop_last(), chunks) + if ops.last() == BufferOp::Push {
            chunks[ops.len() - 1]
        } else {
            Seq::empty()
        }
    }
}

/// Completion is never undone: no change clears it, and a second mark
/// changes nothing.
pub proof fn lemma_completion_never_reset(data: Seq<u8>, op: BufferOp, chunk: Seq<u8>)
    ensures
        buffer_step(data, true, op, chunk).1,
        op != BufferOp::Push ==> buffer_step(data, true, op, chunk) == (data, true),
{
}

/// Once a history has made a buffer complete, any longer history keeps it
/// complete.
pub proof fn lemma_completion_stays(ops: Seq<BufferOp>, chunks: Seq<Seq<u8>>, k: int)
    requires
        0 <= k <= ops.len(),
        buffer_after(ops.take(k), chunks).1,
    ensures
        buffer_after(ops, chunks).1,
{
    lemma_buffer_history(ops.take(k), chunks);
    lemma_buffer_history(ops, chunks);
    let i = choose|i: int| 0 <= i < ops.take(k).len() && #[trigger] ops.take(k)[i] != BufferOp::Push;
    assert(ops[i] == ops.take(k)[i]);
}

/// Over any history of changes to a new buffer, its bytes (and so its
/// snapshot) are the pushed chunks in call order, and it is complete
/// exactly where a mark call came.
pub proof fn lemma_buffer_history(ops: Seq<BufferOp>, chunks: Seq<Seq<u8>>)
    ensures
        buffer_after(ops, chunks).0 == pushed_bytes(ops, chunks),
        buffer_after(ops, chunks).1 <==> exists|i: int|
            0 <= i < ops.len() && #[trigger] ops[i] != BufferOp::Push,
    decreases ops.len(),
{
    if ops.len() > 0 {
        let prev = ops.drop_last();
        lemma_buffer_history(prev, chunks);
        let last = ops.len() - 1;
        if buffer_after(ops, chunks).1 && ops[last] == BufferOp::Push {
            let i = choose|i: int| 0 <= i < prev.len() && #[trigger] prev[i] != BufferOp::Push;
            assert(ops[i] == prev[i]);
        }
        if exists|i: int| 0 <= i < ops.len() && #[trigger] ops[i] != BufferOp::Push {
            let i = choose|i: int| 0 <= i < ops.len() && #[trigger] ops[i] != BufferOp::Push;
            if i < last {
                assert(prev[i] == ops[i]);
            }
        }
        if pushed_bytes(prev, chunks) == buffer_after(prev, chunks).0 {
            if ops.last() != BufferOp::Push {
                assert(pushed_bytes(prev, chunks) + Seq::<u8>::empty() =~= pushed_bytes(prev, chunks));
            }
        }
    }
}

/// Pushing more bytes never changes the bytes a reader has already passed.
pub proof fn lemma_push_keeps_read_bytes(data: Seq<u8>, chunk: Seq<u8>, pos: int)
    requires
        0 <= pos <= data.len(),
    ensures
        (data + chunk).subrange(0, pos) == data.subrange(0, pos),
{
    assert((data + chunk).subrange(0, pos) =~= data.subrange(0, pos));
}

/// A seek names the position its offset counts to: from the start, `n`;
/// from the current position or the end, that many bytes past it, or
/// before it but never before 0. A seek by `Current(0)` names the current
/// position.
pub proof fn lemma_seek_target_counts_offset(pos: int, total: int, n: i64)
    requires
        0 <= pos,
        0 <= total,
    ensures
        0 <= n <= usize::MAX ==> seek_target(pos, total, SeekFrom::Start(n as u64)) == n,
        0 <= n <= usize::MAX ==> seek_target(pos, total, SeekFrom::Current(n)) == pos + n,
        0 <= n <= usize::MAX ==> seek_target(pos, total, SeekFrom::End(n)) == total + n,
        i64::MIN < n < 0 && -n <= usize::MAX ==> seek_target(pos, total, SeekFrom::Current(n))
            == if pos + n >= 0 {
            pos + n
        } else {
            0
        },
        i64::MIN < n < 0 && -n <= usize::MAX ==> seek_target(pos, total, SeekFrom::End(n))
            == if total + n >= 0 {
            total + n
        } else {
            0
        },
        seek_target(pos, total, SeekFrom::Current(0)) == pos,
        seek_target(pos, total, SeekFrom::End(0)) == total,
{
}

/// A read never moves a reader past the buffered bytes, and hands out at
/// least one byte whenever there is room and a byte past the position.
pub proof fn lemma_read_stays_in_buffer(len: int, pos: int, cap: int)
    requires
        0 <= pos < len,
        cap >= 0,
    ensures
        pos + read_amount(len, pos, cap) <= len,
        read_amount(len, pos, cap) > 0 <==> cap > 0,
{
}

/// Once the download is complete (or failed), a read never waits: it hands
/// out bytes or reports the end of the stream.
pub proof fn lemma_finished_stream_never_waits(data: Seq<u8>, pos: int, cap: int)
    ensures
        read_outcome(data, true, pos, cap) != ReadStep::Pending,
{
}

impl StreamingBuffer {
    /// The bytes buffered so far.
    pub closed spec fn data(&self) -> Seq<u8> {
        self.bytes@
    }

    /// Whether no more bytes will arrive.
    pub closed spec fn done(&self) -> bool {
        self.complete
    }

    /// The bytes buffered fit a `Vec`: their count is a `usize`.
    pub proof fn lemma_data_len_bounded(&self)
        ensures
            self.data().len() <= usize::MAX,
    {
        assert(self.bytes.len() == self.bytes@.len());
    }

    /// An empty buffer whose download is still running.
    pub fn new() -> (s: Self)
        ensures
            s.data() == Seq::<u8>::empty(),
            !s.done(),
    {
        StreamingBuffer { bytes: Vec::with_capacity(512 * 1024), complete: false }
    }

    /// Appends a chunk that the download delivered.
    pub fn push(&mut self, chunk: &[u8])
        ensures
            final(self).data() == old(self).data() + chunk@,
            final(self).done() == old(self).done(),
            (final(self).data(), final(self).done()) == buffer_step(
                old(self).data(),
                old(self).done(),
                BufferOp::Push,
                chunk@,
            ),
    {
        let ghost before = self.bytes@;
        self.bytes.extend_from_slice(chunk);
        proof {
            assert forall|i: int| 0 <= i < chunk@.len() implies self.bytes@[before.len() + i]
                == chunk@[i] by {
                assert(self.bytes@[before.len() + i] == chunk@[i]);
            }
            assert(self.bytes@ =~= before + chunk@);
        }
    }

    /// Marks the download as finished: no more data will arrive.
    pub fn mark_complete(&mut self)
        ensures
            final(self).data() == old(self).data(),
            final(self).done(),
            forall|c: Seq<u8>|
                (final(self).data(), final(self).done()) == #[trigger] buffer_step(
                    old(self).data(),
                    old(self).done(),
                    BufferOp::MarkComplete,
                    c,
                ),
    {
        self.complete = true;
    }

    /// Marks the download as failed, which ends the stream where it stands
    /// so that waiting readers see its end.
    pub fn mark_error(&mut self)
        ensures
            final(self).data() == old(self).data(),
            final(self).done(),
            forall|c: Seq<u8>|
                (final(self).data(), final(self).done()) == #[trigger] buffer_step(
                    old(self).data(),
                    old(self).done(),
                    BufferOp::MarkError,
                    c,
                ),
    {
        self.mark_complete();
    }

    /// The number of bytes buffered so far.
    pub fn len(&self) -> (n: usize)
        ensures
            n == self.data().len(),
    {
        self.bytes.len()
    }

    /// Whether the download is finished.
    pub fn is_complete(&self) -> (b: bool)
        ensures
            b == self.done(),
    {
        self.complete
    }

    /// A copy of all bytes buffered so far.
    pub fn snapshot(&self) -> (v: Vec<u8>)
        ensures
            v@ == self.data(),
    {
        self.bytes.clone()
    }

    /// A new reader positioned at the start.
    pub fn reader(&self) -> (r: StreamingReader)
        ensures
            r.position() == 0,
    {
        StreamingReader { pos: 0 }
    }
}

impl StreamingReader {
    /// The reader's position.
    pub closed spec fn position(&self) -> int {
        self.pos as int
    }

    /// A position is a `usize`.
    pub proof fn lemma_position_bounded(&self)
        ensures
            0 <= self.position() <= usize::MAX,
    {
    }

    /// The reader's position.
    pub fn pos(&self) -> (p: usize)
        ensures
            p == self.position(),
    {
        self.pos
    }

    /// Copies the next bytes of `buffer` into the front of `buf`.
    ///
    /// Where bytes lie past the position, as many as fit are copied and the
    /// position moves past them. Otherwise the read is at the end of the
    /// stream when the download is complete, and must wait when it is not.
    pub fn read(&mut self, buffer: &StreamingBuffer, buf: &mut [u8]) -> (step: ReadStep)
        ensures
            old(self).position() <= buffer.data().len() ==> final(self).position()
                <= buffer.data().len(),
            ({
                let len = buffer.data().len() as int;
                let pos = old(self).position();
                let n = read_amount(len, pos, old(buf)@.len() as int);
                &&& step == read_outcome(buffer.data(), buffer.done(), pos, old(buf)@.len() as int)
                &&& if pos < len {
                    &&& final(self).position() == pos + n
                    &&& final(buf)@ == buffer.data().subrange(pos, pos + n) + old(buf)@.subrange(
                        n,
                        old(buf)@.len() as int,
                    )
                } else {
                    &&& final(self).position() == pos
                    &&& final(buf)@ == old(buf)@
                }
            }),
    {
        let len = buffer.bytes.len();
        let available = len.saturating_sub(self.pos);
        if available > 0 {
            let n = if buf.len() < available {
                buf.len()
            } else {
                available
            };
            let start = self.pos;
            let ghost orig = buf@;
            let mut i: usize = 0;
            while i < n
                invariant
                    n <= buf@.len(),
                    buf@.len() == orig.len(),
                    start + n <= len,
                    len == buffer.bytes@.len(),
                    i <= n,
                    forall|k: int| 0 <= k < i ==> buf@[k] == buffer.bytes@[start + k],
                    forall|k: int| i <= k < buf@.len() ==> buf@[k] == orig[k],
                decreases n - i,
            {
                buf[i] = buffer.bytes[start + i];
                i = i + 1;
            }
            self.pos = start + n;
            proof {
                assert(buf@ =~= buffer.bytes@.subrange(start as int, start + n) + orig.subrange(
                    n as int,
                    orig.len() as int,
                ));
            }
            ReadStep::Data(n)
        } else if buffer.complete {
            ReadStep::EndOfStream
        } else {
            ReadStep::Pending
        }
    }

    /// Starts a seek: computes the target that `from` names and settles on it
    /// where the bytes are there (see [`StreamingReader::settle`]).
    ///
    /// A seek from the end waits for the download to complete, since only
    /// then is the length known.
    pub fn seek(&mut self, buffer: &StreamingBuffer, from: SeekFrom) -> (step: SeekStep)
        requires
            seek_in_range(old(self).position(), buffer.data().len() as int, buffer.done(), from),
        ensures
            old(self).position() <= buffer.data().len() ==> final(self).position()
                <= buffer.data().len(),
            ({
                let len = buffer.data().len() as int;
                let pos = old(self).position();
                let target = seek_target(pos, len, from);
                if from is End && !buffer.done() {
                    step == SeekStep::AwaitCompletion && final(self).position() == pos
                } else if target <= len || buffer.done() {
                    &&& final(self).position() == min_int(target, len)
                    &&& step == SeekStep::Settled(min_int(target, len) as u64)
                } else {
                    step == SeekStep::AwaitData(target as usize) && final(self).position() == pos
                }
            }),
    {
        let len = buffer.bytes.len();
        let target: usize = match from {
            SeekFrom::Start(n) => n as usize,
            SeekFrom::Current(n) => Self::offset(self.pos, n),
            SeekFrom::End(n) => {
                if !buffer.complete {
                    return SeekStep::AwaitCompletion;
                }
                Self::offset(len, n)
            },
        };
        match self.settle(buffer, target) {
            Some(p) => SeekStep::Settled(p),
            None => SeekStep::AwaitData(target),
        }
    }

    /// Moves to `target` when the bytes up to it are buffered, or to the end
    /// of a finished download that is shorter; otherwise stays put and
    /// answers `None`.
    pub fn settle(&mut self, buffer: &StreamingBuffer, target: usize) -> (res: Option<u64>)
        ensures
            old(self).position() <= buffer.data().len() ==> final(self).position()
                <= buffer.data().len(),
            ({
                let len = buffer.data().len() as int;
                if target <= len || buffer.done() {
                    &&& final(self).position() == min_int(target as int, len)
                    &&& res == Some(min_int(target as int, len) as u64)
                } else {
                    res is None && final(self).position() == old(self).position()
                }
            }),
    {
        let len = buffer.bytes.len();
        if target <= len || buffer.complete {
            self.pos = if target < len {
                target
            } else {
                len
            };
            Some(self.pos as u64)
        } else {
            None
        }
    }

    fn offset(base: usize, n: i64) -> (r: usize)
        requires
            offset_in_range(base as int, n),
        ensures
            r == offset_from(base as int, n),
    {
        if n >= 0 {
            base + n as usize
        } else {
            base.saturating_sub((-n) as usize)
        }
    }
}

} // verus!

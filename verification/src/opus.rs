use vstd::prelude::*;

use ogg::reading::PacketReader;
use std::io::Cursor;

use crate::streaming::min_int;

verus! {

/// An `ogg::reading::PacketReader` over the bytes of an Ogg file held in
/// memory. Its state is known through the bytes it reads
/// ([`ogg_source`]) and the operations done on it so far ([`ogg_ops`]).
#[verifier::external_body]
pub struct OggPackets {
    reader: PacketReader<Cursor<Vec<u8>>>,
}

/// An operation on a packet reader.
#[derive(Clone, Copy, Debug, PartialEq, Eq)]
pub enum OggOp {
    /// One `read_packet`.
    Read,
    /// `seek_bytes` to this byte offset: the cursor moves there and the
    /// packets not yet read are dropped.
    SeekTo(u64),
    /// The cursor moves to this byte offset; the packets not yet read stay.
    MoveTo(u64),
}

/// What a packet read gives: `Ok(Some((data, serial)))` for a packet,
/// `Ok(None)` at the end of the physical stream, or the error's message.
pub type OggRead = Result<Option<(Seq<u8>, u32)>, Seq<char>>;

/// The bytes that a packet reader reads.
pub uninterp spec fn ogg_source(p: OggPackets) -> Seq<u8>;

/// The operations done on a packet reader since it was made.
pub uninterp spec fn ogg_ops(p: OggPackets) -> Seq<OggOp>;

/// What `read_packet` gives on a reader over `data` after the operations
/// `ops`: the reader over an in-memory cursor reads nothing but those bytes,
/// so this is a function of them alone.
pub uninterp spec fn ogg_read_after(data: Seq<u8>, ops: Seq<OggOp>) -> OggRead;

/// An Ogg packet: its bytes and the serial number of its logical stream.
pub struct OggPacket {
    pub data: Vec<u8>,
    pub serial: u32,
}

/// A read result as plain values.
pub open spec fn read_view(r: Result<Option<OggPacket>, String>) -> OggRead {
    match r {
        Ok(Some(p)) => Ok(Some((p.data@, p.serial))),
        Ok(None) => Ok(None),
        Err(e) => Err(e@),
    }
}

/// `ogg::reading::PacketReader::new` over the bytes of a whole file: a
/// reader over `data` on which nothing has been done yet.
#[verifier::external_body]
fn packet_reader(data: Vec<u8>) -> (p: OggPackets)
    ensures
        ogg_source(p) == data@,
        ogg_ops(p) == Seq::<OggOp>::empty(),
{
    OggPackets { reader: PacketReader::new(Cursor::new(data)) }
}

/// `ogg::reading::PacketReader::read_packet`, with the packet's data and
/// stream serial (`Packet::stream_serial`), or the message of the read
/// error: what a read gives after the operations done so far, which now
/// include it.
#[verifier::external_body]
fn read_packet(packets: &mut OggPackets) -> (r: Result<Option<OggPacket>, String>)
    ensures
        read_view(r) == ogg_read_after(ogg_source(*old(packets)), ogg_ops(*old(packets))),
        ogg_source(*final(packets)) == ogg_source(*old(packets)),
        ogg_ops(*final(packets)) == ogg_ops(*old(packets)).push(OggOp::Read),
{
    match packets.reader.read_packet() {
        Ok(Some(p)) => Ok(Some(OggPacket { serial: p.stream_serial(), data: p.data })),
        Ok(None) => Ok(None),
        Err(e) => Err(e.to_string()),
    }
}

/// `ogg::reading::PacketReader::seek_bytes` to an absolute offset, which
/// moves the cursor and drops the packets not yet read. A seek from the
/// start never fails on an in-memory cursor; its result is not used.
#[verifier::external_body]
fn seek_bytes(packets: &mut OggPackets, pos: u64)
    ensures
        ogg_source(*final(packets)) == ogg_source(*old(packets)),
        ogg_ops(*final(packets)) == ogg_ops(*old(packets)).push(OggOp::SeekTo(pos)),
{
    let _ = packets.reader.seek_bytes(std::io::SeekFrom::Start(pos));
}

/// `std::io::Cursor::set_position` on the reader's cursor
/// (`PacketReader::get_mut`): the cursor moves, the packets not yet read
/// stay.
#[verifier::external_body]
fn move_cursor(packets: &mut OggPackets, pos: u64)
    ensures
        ogg_source(*final(packets)) == ogg_source(*old(packets)),
        ogg_ops(*final(packets)) == ogg_ops(*old(packets)).push(OggOp::MoveTo(pos)),
{
    packets.reader.get_mut().set_position(pos);
}

/// The bytes under the reader (`PacketReader::get_ref`, then
/// `Cursor::get_ref`).
#[verifier::external_body]
fn source_bytes(packets: &OggPackets) -> (b: &[u8])
    ensures
        b@ == ogg_source(*packets),
{
    packets.reader.get_ref().get_ref().as_slice()
}

/// The magic signature `OpusHead` of an Opus identification header.
pub open spec fn opus_magic() -> Seq<u8> {
    seq![0x4fu8, 0x70u8, 0x75u8, 0x73u8, 0x48u8, 0x65u8, 0x61u8, 0x64u8]
}

/// What playback needs from an Opus identification header.
#[derive(Clone, Copy, Debug, PartialEq, Eq)]
pub struct OpusHead {
    /// 1 for a mono stream, 2 otherwise (decoded as stereo).
    pub channels: u16,
    /// The interleaved samples to discard at the start of the stream: the
    /// header's pre-skip (per channel) times the channel count.
    pub pre_skip: usize,
    /// The serial number of the Opus logical stream.
    pub serial: u32,
}

/// The channel count that decoding uses for a header's channel byte.
pub open spec fn decoded_channels(ch: u8) -> u16 {
    if ch == 1 {
        1
    } else {
        2
    }
}

/// The header that a packet carries, where it is a valid identification
/// header: at least 19 bytes opening with `OpusHead`; the channel count is
/// at byte 9 and the little-endian pre-skip at bytes 10 and 11.
pub open spec fn parse_opus_head(d: Seq<u8>, serial: u32) -> Option<OpusHead> {
    if d.len() >= 19 && d.subrange(0, 8) == opus_magic() {
        let channels = decoded_channels(d[9]);
        Some(
            OpusHead {
                channels,
                pre_skip: ((d[10] as int + 256 * (d[11] as int)) * channels as int) as usize,
                serial,
            },
        )
    } else {
        None
    }
}

/// Reads the identification header out of the first packet of a stream.
pub fn opus_head(data: &[u8], serial: u32) -> (head: Option<OpusHead>)
    ensures
        head == parse_opus_head(data@, serial),
{
    if data.len() < 19 {
        return None;
    }
    if !(data[0] == 0x4f && data[1] == 0x70 && data[2] == 0x75 && data[3] == 0x73 && data[4]
        == 0x48 && data[5] == 0x65 && data[6] == 0x61 && data[7] == 0x64) {
        proof {
            if data@.subrange(0, 8) == opus_magic() {
                let m = data@.subrange(0, 8);
                assert(m[0] == opus_magic()[0] && m[1] == opus_magic()[1]);
                assert(m[2] == opus_magic()[2] && m[3] == opus_magic()[3]);
                assert(m[4] == opus_magic()[4] && m[5] == opus_magic()[5]);
                assert(m[6] == opus_magic()[6] && m[7] == opus_magic()[7]);
            }
        }
        return None;
    }
    assert(data@.subrange(0, 8) =~= opus_magic());
    let channels: u16 = if data[9] == 1 {
        1
    } else {
        2
    };
    let per_channel: usize = data[10] as usize + 256 * (data[11] as usize);
    Some(OpusHead { channels, pre_skip: per_channel * channels as usize, serial })
}

/// The message of an Ogg read failure.
pub open spec fn ogg_read_error(msg: Seq<char>) -> Seq<char> {
    "OGG read error: "@ + msg
}

/// What the first read of a stream yields: its identification header, or
/// the message of what went wrong.
pub open spec fn head_of_first_read(first: OggRead) -> Result<OpusHead, Seq<char>> {
    match first {
        Err(e) => Err(ogg_read_error(e)),
        Ok(None) => Err("No OpusHead packet"@),
        Ok(Some((d, serial))) => match parse_opus_head(d, serial) {
            Some(h) => Ok(h),
            None => Err("Invalid OpusHead"@),
        },
    }
}

/// A result carrying a string message, as plain values.
pub open spec fn message_view<T>(r: Result<T, String>) -> Result<T, Seq<char>> {
    match r {
        Ok(v) => Ok(v),
        Err(m) => Err(m@),
    }
}

/// What the first packet of a stream yields: its identification header, or
/// the message of what went wrong.
pub fn head_from_first_packet(first: Result<Option<OggPacket>, String>) -> (res: Result<
    OpusHead,
    String,
>)
    ensures
        message_view(res) == head_of_first_read(read_view(first)),
{
    match first {
        Err(e) => {
            let mut m = String::from_str("OGG read error: ");
            m.append(e.as_str());
            Err(m)
        },
        Ok(None) => Err(String::from_str("No OpusHead packet")),
        Ok(Some(p)) => match opus_head(p.data.as_slice(), p.serial) {
            Some(h) => Ok(h),
            None => Err(String::from_str("Invalid OpusHead")),
        },
    }
}

/// What reading the next packet of audio yields.
#[derive(Debug, PartialEq, Eq)]
pub enum PacketStep {
    /// A packet of compressed audio, never empty.
    Audio(Vec<u8>),
    /// An empty packet, which decoding skips.
    Skip,
    /// The end of the stream, or a read error, which ends it too.
    End,
}

/// `step` is the step that the read `r` stands for: a non-empty packet is
/// audio, an empty one is skipped, and the end or an error ends the stream.
pub open spec fn is_step_of(step: PacketStep, r: OggRead) -> bool {
    match r {
        Ok(Some((d, _))) => if d.len() == 0 {
            step == PacketStep::Skip
        } else {
            step matches PacketStep::Audio(v) && v@ == d
        },
        _ => step == PacketStep::End,
    }
}

/// The step that a packet read result stands for.
pub fn packet_step(read: Result<Option<OggPacket>, String>) -> (step: PacketStep)
    ensures
        is_step_of(step, read_view(read)),
{
    match read {
        Ok(Some(p)) => {
            if p.data.len() == 0 {
                PacketStep::Skip
            } else {
                PacketStep::Audio(p.data)
            }
        },
        _ => PacketStep::End,
    }
}

/// An Ogg Opus stream held in memory, positioned past its two header
/// packets.
pub struct OpusStream {
    reader: OggPackets,
    head: OpusHead,
}

impl OpusStream {
    /// The stream's identification header.
    pub closed spec fn head_view(&self) -> OpusHead {
        self.head
    }

    /// The bytes of the Ogg file.
    pub closed spec fn source(&self) -> Seq<u8> {
        ogg_source(self.reader)
    }

    /// The operations done on the stream's packet reader so far.
    pub closed spec fn ops(&self) -> Seq<OggOp> {
        ogg_ops(self.reader)
    }

    /// Opens an Ogg Opus file: reads its identification header from the
    /// first packet and skips the comment header in the second.
    ///
    /// Fails as [`head_from_first_packet`] says of the first read, and with
    /// "OGG read error: " and the reader's message where the second read
    /// fails.
    pub fn open(data: Vec<u8>) -> (res: Result<OpusStream, String>)
        ensures
            ({
                let first = ogg_read_after(data@, Seq::empty());
                let second = ogg_read_after(data@, seq![OggOp::Read]);
                match head_of_first_read(first) {
                    Err(m) => res matches Err(e) && e@ == m,
                    Ok(h) => match second {
                        Err(m) => res matches Err(e) && e@ == ogg_read_error(m),
                        Ok(_) => res matches Ok(s) && s.head_view() == h && s.source() == data@
                            && s.ops() == seq![OggOp::Read, OggOp::Read],
                    },
                }
            }),
    {
        let ghost bytes = data@;
        let mut reader = packet_reader(data);
        let first = read_packet(&mut reader);
        let head = match head_from_first_packet(first) {
            Ok(h) => h,
            Err(e) => return Err(e),
        };
        match read_packet(&mut reader) {
            Err(e) => {
                let mut m = String::from_str("OGG read error: ");
                m.append(e.as_str());
                return Err(m);
            },
            Ok(_) => {},
        }
        proof {
            assert(seq![OggOp::Read].push(OggOp::Read) =~= seq![OggOp::Read, OggOp::Read]);
            assert(Seq::<OggOp>::empty().push(OggOp::Read) =~= seq![OggOp::Read]);
        }
        Ok(OpusStream { reader, head })
    }

    /// The stream's identification header.
    pub fn head(&self) -> (h: OpusHead)
        ensures
            h == self.head_view(),
    {
        self.head
    }

    /// The bytes of the Ogg file, for a caller that searches them.
    pub fn source_bytes(&self) -> (b: &[u8])
        ensures
            b@ == self.source(),
    {
        source_bytes(&self.reader)
    }

    /// Reads the next packet of audio: the step that the stream's next read
    /// stands for.
    pub fn next_packet(&mut self) -> (step: PacketStep)
        ensures
            is_step_of(step, ogg_read_after(old(self).source(), old(self).ops())),
            final(self).head_view() == old(self).head_view(),
            final(self).source() == old(self).source(),
            final(self).ops() == old(self).ops().push(OggOp::Read),
    {
        packet_step(read_packet(&mut self.reader))
    }

    /// Moves the reader to the byte offset `pos` that a granule search on
    /// [`OpusStream::source_bytes`] ended at. Where the search found its
    /// page, the packets not yet read are dropped (as `seek_bytes` does);
    /// otherwise only the cursor moves, as an unfinished search leaves it.
    pub fn reposition(&mut self, found: bool, pos: u64)
        ensures
            final(self).head_view() == old(self).head_view(),
            final(self).source() == old(self).source(),
            final(self).ops() == old(self).ops().push(
                if found {
                    OggOp::SeekTo(pos)
                } else {
                    OggOp::MoveTo(pos)
                },
            ),
    {
        if found {
            seek_bytes(&mut self.reader, pos);
        } else {
            move_cursor(&mut self.reader, pos);
        }
    }
}

/// What decoding keeps of a decoded packet.
#[derive(Clone, Copy, Debug, PartialEq, Eq)]
pub enum PacketTrim {
    /// The whole packet falls within the pre-skip: drop it and decode the next.
    Drop,
    /// Keep the samples from this index on.
    Keep(usize),
}

/// The discarding of the first `pre_skip` interleaved samples of a stream,
/// which the encoder's look-ahead produced.
pub struct PreSkip {
    pre_skip: usize,
    skipped: usize,
}

impl PreSkip {
    /// The samples to discard in all.
    pub closed spec fn goal(&self) -> int {
        self.pre_skip as int
    }

    /// The samples discarded so far.
    pub closed spec fn done(&self) -> int {
        self.skipped as int
    }

    /// Never more is discarded than the pre-skip asks for.
    pub closed spec fn wf(&self) -> bool {
        self.skipped <= self.pre_skip
    }

    /// The counts are `usize`s: neither is negative.
    pub proof fn lemma_counts_bounded(&self)
        ensures
            0 <= self.goal() <= usize::MAX,
            0 <= self.done() <= usize::MAX,
    {
    }

    /// Nothing discarded yet.
    pub fn new(pre_skip: usize) -> (p: Self)
        ensures
            p.wf(),
            p.goal() == pre_skip,
            p.done() == 0,
    {
        PreSkip { pre_skip, skipped: 0 }
    }

    /// What to keep of a decoded packet of `total` interleaved samples:
    /// samples are discarded from its front while the pre-skip is not yet
    /// reached, and a packet left with nothing is dropped.
    pub fn trim(&mut self, total: usize) -> (t: PacketTrim)
        requires
            old(self).wf(),
        ensures
            final(self).wf(),
            final(self).goal() == old(self).goal(),
            ({
                let skip = min_skip(old(self).goal() - old(self).done(), total as int);
                &&& final(self).done() == old(self).done() + skip
                &&& t == if old(self).done() < old(self).goal() && skip >= total {
                    PacketTrim::Drop
                } else {
                    PacketTrim::Keep(skip as usize)
                }
            }),
    {
        if self.skipped < self.pre_skip {
            let left = self.pre_skip - self.skipped;
            let skip = if left < total {
                left
            } else {
                total
            };
            self.skipped = self.skipped + skip;
            if skip >= total {
                PacketTrim::Drop
            } else {
                PacketTrim::Keep(skip)
            }
        } else {
            PacketTrim::Keep(0)
        }
    }

    /// After a seek the stream resumes mid-way: nothing more is discarded.
    pub fn after_seek(&mut self)
        ensures
            final(self).wf(),
            final(self).goal() == old(self).goal(),
            final(self).done() == old(self).goal(),
    {
        self.skipped = self.pre_skip;
    }
}

/// The samples to discard from a packet of `total` samples when `left` are
/// still to go.
pub open spec fn min_skip(left: int, total: int) -> int {
    if left <= 0 {
        0
    } else if left < total {
        left
    } else {
        total
    }
}

/// The samples discarded so far after packets of the given sizes, from
/// `done` discarded of `goal`.
pub open spec fn discarded_after(goal: int, done: int, sizes: Seq<int>) -> int
    decreases sizes.len(),
{
    if sizes.len() == 0 {
        done
    } else {
        let d = discarded_after(goal, done, sizes.drop_last());
        d + min_skip(goal - d, sizes.last())
    }
}

/// The total of the given sizes.
pub open spec fn total_samples(sizes: Seq<int>) -> int
    decreases sizes.len(),
{
    if sizes.len() == 0 {
        0
    } else {
        total_samples(sizes.drop_last()) + sizes.last()
    }
}

/// Over any run of decoded packets, the samples discarded from the start of
/// a stream are exactly the pre-skip, or every sample where the stream is
/// shorter.
pub proof fn lemma_pre_skip_discards_exactly(goal: int, sizes: Seq<int>)
    requires
        goal >= 0,
        forall|i: int| 0 <= i < sizes.len() ==> sizes[i] >= 0,
    ensures
        discarded_after(goal, 0, sizes) == if total_samples(sizes) < goal {
            total_samples(sizes)
        } else {
            goal
        },
    decreases sizes.len(),
{
    if sizes.len() > 0 {
        lemma_pre_skip_discards_exactly(goal, sizes.drop_last());
    }
}

/// The samples of a run of decoded packets, laid end to end.
pub open spec fn all_samples<T>(packets: Seq<Seq<T>>) -> Seq<T>
    decreases packets.len(),
{
    if packets.len() == 0 {
        Seq::empty()
    } else {
        all_samples(packets.drop_last()) + packets.last()
    }
}

/// The sizes of a run of decoded packets.
pub open spec fn sizes_of<T>(packets: Seq<Seq<T>>) -> Seq<int> {
    packets.map_values(|p: Seq<T>| p.len() as int)
}

/// The samples that decoding keeps of a run of packets: of each, those from
/// the index that [`PreSkip::trim`] gives on.
pub open spec fn kept_samples<T>(goal: int, packets: Seq<Seq<T>>) -> Seq<T>
    decreases packets.len(),
{
    if packets.len() == 0 {
        Seq::empty()
    } else {
        let before = packets.drop_last();
        let d = discarded_after(goal, 0, sizes_of(before));
        let p = packets.last();
        kept_samples(goal, before) + p.subrange(min_skip(goal - d, p.len() as int), p.len() as int)
    }
}

proof fn lemma_total_samples_len<T>(packets: Seq<Seq<T>>)
    ensures
        total_samples(sizes_of(packets)) == all_samples(packets).len(),
        forall|i: int| 0 <= i < sizes_of(packets).len() ==> sizes_of(packets)[i] >= 0,
    decreases packets.len(),
{
    if packets.len() > 0 {
        lemma_total_samples_len(packets.drop_last());
        assert(sizes_of(packets).drop_last() =~= sizes_of(packets.drop_last()));
    }
}

/// The samples that decoding keeps, laid end to end, are exactly the
/// stream's samples after the pre-skip (none where the stream is shorter).
pub proof fn lemma_kept_samples_follow_pre_skip<T>(goal: int, packets: Seq<Seq<T>>)
    requires
        goal >= 0,
    ensures
        ({
            let all = all_samples(packets);
            kept_samples(goal, packets) == all.subrange(min_int(goal, all.len() as int), all.len() as int)
        }),
    decreases packets.len(),
{
    let all = all_samples(packets);
    if packets.len() == 0 {
        assert(all.subrange(0, 0) =~= Seq::<T>::empty());
    } else {
        let before = packets.drop_last();
        let p = packets.last();
        lemma_kept_samples_follow_pre_skip(goal, before);
        lemma_total_samples_len(before);
        lemma_pre_skip_discards_exactly(goal, sizes_of(before));
        let prev = all_samples(before);
        let d = discarded_after(goal, 0, sizes_of(before));
        let skip = min_skip(goal - d, p.len() as int);
        assert(all == prev + p);
        if prev.len() >= goal {
            assert(prev.subrange(goal, prev.len() as int) + p.subrange(0, p.len() as int) =~= all.subrange(
                goal,
                all.len() as int,
            ));
        } else {
            assert(prev.subrange(prev.len() as int, prev.len() as int) =~= Seq::<T>::empty());
            let start = min_int(goal, all.len() as int);
            assert(start == prev.len() + skip);
            assert(Seq::<T>::empty() + p.subrange(skip, p.len() as int) =~= all.subrange(
                start,
                all.len() as int,
            ));
        }
    }
}

} // verus!

use ogg::writing::{PacketWriteEndInfo, PacketWriter};
use soundcloud_desktop::opus::{
    head_from_first_packet, opus_head, packet_step, OggPacket, OpusHead, OpusStream, PacketStep,
    PacketTrim, PreSkip,
};

fn head_bytes(channels: u8, pre_skip: u16) -> Vec<u8> {
    let mut h = b"OpusHead".to_vec();
    h.push(1);
    h.push(channels);
    h.extend_from_slice(&pre_skip.to_le_bytes());
    h.extend_from_slice(&48000u32.to_le_bytes());
    h.extend_from_slice(&[0, 0, 0]);
    h
}

fn ogg_file(packets: &[Vec<u8>]) -> Vec<u8> {
    let mut out = Vec::new();
    {
        let mut w = PacketWriter::new(&mut out);
        for (i, p) in packets.iter().enumerate() {
            let end = if i + 1 == packets.len() {
                PacketWriteEndInfo::EndStream
            } else {
                PacketWriteEndInfo::EndPage
            };
            w.write_packet(p.clone(), 77, end, i as u64).unwrap();
        }
    }
    out
}

#[test]
fn parses_identification_header() {
    assert_eq!(opus_head(&head_bytes(2, 312), 5), Some(OpusHead { channels: 2, pre_skip: 624, serial: 5 }));
    assert_eq!(opus_head(&head_bytes(1, 312), 5), Some(OpusHead { channels: 1, pre_skip: 312, serial: 5 }));
    assert_eq!(opus_head(&head_bytes(6, 1), 0), Some(OpusHead { channels: 2, pre_skip: 2, serial: 0 }));
}

#[test]
fn rejects_bad_headers() {
    assert_eq!(opus_head(&head_bytes(2, 312)[..18], 0), None);
    let mut bad = head_bytes(2, 312);
    bad[0] = b'o';
    assert_eq!(opus_head(&bad, 0), None);
}

#[test]
fn first_packet_errors() {
    assert_eq!(head_from_first_packet(Err("CRC32 hash mismatch".to_string())), Err("OGG read error: CRC32 hash mismatch".to_string()));
    assert_eq!(head_from_first_packet(Ok(None)), Err("No OpusHead packet".to_string()));
    let p = OggPacket { data: b"OpusTags".to_vec(), serial: 1 };
    assert_eq!(head_from_first_packet(Ok(Some(p))), Err("Invalid OpusHead".to_string()));
    let p = OggPacket { data: head_bytes(1, 0), serial: 9 };
    assert_eq!(head_from_first_packet(Ok(Some(p))), Ok(OpusHead { channels: 1, pre_skip: 0, serial: 9 }));
}

#[test]
fn packet_steps() {
    assert_eq!(packet_step(Ok(Some(OggPacket { data: vec![1, 2], serial: 0 }))), PacketStep::Audio(vec![1, 2]));
    assert_eq!(packet_step(Ok(Some(OggPacket { data: vec![], serial: 0 }))), PacketStep::Skip);
    assert_eq!(packet_step(Ok(None)), PacketStep::End);
    assert_eq!(packet_step(Err("x".to_string())), PacketStep::End);
}

#[test]
fn opens_an_ogg_opus_stream_and_reads_its_packets() {
    let file = ogg_file(&[head_bytes(2, 100), b"OpusTags".to_vec(), vec![1, 2, 3], vec![], vec![4]]);
    let mut s = OpusStream::open(file).unwrap();
    assert_eq!(s.head(), OpusHead { channels: 2, pre_skip: 200, serial: 77 });
    assert_eq!(s.next_packet(), PacketStep::Audio(vec![1, 2, 3]));
    assert_eq!(s.next_packet(), PacketStep::Skip);
    assert_eq!(s.next_packet(), PacketStep::Audio(vec![4]));
    assert_eq!(s.next_packet(), PacketStep::End);
}

#[test]
fn open_rejects_non_opus_and_garbage() {
    let file = ogg_file(&[b"\x01vorbis".to_vec(), vec![0]]);
    assert_eq!(OpusStream::open(file).err(), Some("Invalid OpusHead".to_string()));
    let empty = OpusStream::open(Vec::new()).err().unwrap();
    assert!(empty.starts_with("OGG read error: "), "{empty}");
    let garbage = vec![0x55u8; 64];
    let err = OpusStream::open(garbage).err().unwrap();
    assert!(err.starts_with("OGG read error: "), "{err}");
}

#[test]
fn pre_skip_drops_leading_samples_only() {
    let mut p = PreSkip::new(1000);
    assert_eq!(p.trim(960), PacketTrim::Drop);
    assert_eq!(p.trim(960), PacketTrim::Keep(40));
    assert_eq!(p.trim(960), PacketTrim::Keep(0));
    let mut q = PreSkip::new(960);
    assert_eq!(q.trim(960), PacketTrim::Drop);
    assert_eq!(q.trim(960), PacketTrim::Keep(0));
}

#[test]
fn no_pre_skip_after_seek() {
    let mut p = PreSkip::new(500);
    p.after_seek();
    assert_eq!(p.trim(960), PacketTrim::Keep(0));
    let mut z = PreSkip::new(0);
    assert_eq!(z.trim(0), PacketTrim::Keep(0));
}

#[test]
fn seeks_to_the_page_of_a_granule_position() {
    let file = ogg_file(&[
        head_bytes(1, 0),
        b"OpusTags".to_vec(),
        vec![10],
        vec![11],
        vec![12],
        vec![13],
    ]);
    let mut s = OpusStream::open(file.clone()).unwrap();
    assert_eq!(s.source_bytes(), &file[..]);
    assert_eq!(s.next_packet(), PacketStep::Audio(vec![10]));
    let mut probe = ogg::reading::PacketReader::new(std::io::Cursor::new(s.source_bytes()));
    assert!(probe.seek_absgp(Some(77), 4).unwrap());
    let pos = probe.into_inner().position();
    s.reposition(true, pos);
    assert_eq!(s.next_packet(), PacketStep::Audio(vec![12]));
    assert_eq!(s.next_packet(), PacketStep::Audio(vec![13]));
    assert_eq!(s.next_packet(), PacketStep::End);
}

#[test]
fn reposition_to_the_start_reads_the_header_again() {
    let head = head_bytes(2, 0);
    let file = ogg_file(&[head.clone(), b"OpusTags".to_vec(), vec![10], vec![11]]);
    let mut s = OpusStream::open(file).unwrap();
    s.reposition(true, 0);
    assert_eq!(s.next_packet(), PacketStep::Audio(head));
}

#[test]
fn moving_the_cursor_to_the_end_ends_the_stream() {
    let file = ogg_file(&[head_bytes(2, 0), b"OpusTags".to_vec(), vec![10], vec![11]]);
    let len = file.len() as u64;
    let mut s = OpusStream::open(file).unwrap();
    s.reposition(false, len);
    assert_eq!(s.next_packet(), PacketStep::End);
}

use soundcloud_desktop::streaming::{ReadStep, SeekFrom, SeekStep, StreamingBuffer};

#[test]
fn new_buffer_is_empty_and_open() {
    let b = StreamingBuffer::new();
    assert_eq!(b.len(), 0);
    assert!(!b.is_complete());
    assert_eq!(b.snapshot(), Vec::<u8>::new());
}

#[test]
fn push_appends_chunks_in_order() {
    let mut b = StreamingBuffer::new();
    b.push(&[1, 2, 3]);
    b.push(&[]);
    b.push(&[4, 5]);
    assert_eq!(b.len(), 5);
    assert_eq!(b.snapshot(), vec![1, 2, 3, 4, 5]);
    assert!(!b.is_complete());
}

#[test]
fn mark_complete_and_mark_error_end_the_stream() {
    let mut b = StreamingBuffer::new();
    b.push(&[9]);
    b.mark_complete();
    assert!(b.is_complete());
    assert_eq!(b.snapshot(), vec![9]);
    let mut e = StreamingBuffer::new();
    e.mark_error();
    assert!(e.is_complete());
    assert_eq!(e.len(), 0);
}

#[test]
fn read_hands_out_what_fits_and_advances() {
    let mut b = StreamingBuffer::new();
    b.push(&[10, 20, 30, 40, 50]);
    let mut r = b.reader();
    assert_eq!(r.pos(), 0);
    let mut buf = [0u8; 3];
    assert_eq!(r.read(&b, &mut buf), ReadStep::Data(3));
    assert_eq!(buf, [10, 20, 30]);
    assert_eq!(r.pos(), 3);
    let mut buf = [7u8; 4];
    assert_eq!(r.read(&b, &mut buf), ReadStep::Data(2));
    assert_eq!(buf, [40, 50, 7, 7]);
    assert_eq!(r.pos(), 5);
}

#[test]
fn read_at_frontier_waits_until_complete() {
    let mut b = StreamingBuffer::new();
    b.push(&[1]);
    let mut r = b.reader();
    let mut buf = [0u8; 4];
    assert_eq!(r.read(&b, &mut buf), ReadStep::Data(1));
    assert_eq!(r.read(&b, &mut buf), ReadStep::Pending);
    b.push(&[2]);
    assert_eq!(r.read(&b, &mut buf), ReadStep::Data(1));
    assert_eq!(buf[0], 2);
    b.mark_error();
    assert_eq!(r.read(&b, &mut buf), ReadStep::EndOfStream);
}

#[test]
fn read_with_empty_buffer_returns_zero_bytes() {
    let mut b = StreamingBuffer::new();
    b.push(&[1, 2]);
    let mut r = b.reader();
    let mut buf: [u8; 0] = [];
    assert_eq!(r.read(&b, &mut buf), ReadStep::Data(0));
    assert_eq!(r.pos(), 0);
}

#[test]
fn reads_give_back_every_pushed_byte() {
    let mut b = StreamingBuffer::new();
    let data: Vec<u8> = (0..=255u8).collect();
    for chunk in data.chunks(37) {
        b.push(chunk);
    }
    b.mark_complete();
    let mut r = b.reader();
    let mut out = Vec::new();
    let mut buf = [0u8; 10];
    loop {
        match r.read(&b, &mut buf) {
            ReadStep::Data(n) => out.extend_from_slice(&buf[..n]),
            ReadStep::EndOfStream => break,
            ReadStep::Pending => panic!("a complete stream never waits"),
        }
    }
    assert_eq!(out, b.snapshot());
}

#[test]
fn seek_from_start_and_current() {
    let mut b = StreamingBuffer::new();
    b.push(&[0, 1, 2, 3, 4, 5, 6, 7]);
    let mut r = b.reader();
    assert_eq!(r.seek(&b, SeekFrom::Start(5)), SeekStep::Settled(5));
    assert_eq!(r.seek(&b, SeekFrom::Current(-2)), SeekStep::Settled(3));
    assert_eq!(r.seek(&b, SeekFrom::Current(-10)), SeekStep::Settled(0));
    assert_eq!(r.seek(&b, SeekFrom::Current(8)), SeekStep::Settled(8));
    let mut buf = [0u8; 2];
    assert_eq!(r.read(&b, &mut buf), ReadStep::Pending);
}

#[test]
fn seek_past_frontier_waits_for_data() {
    let mut b = StreamingBuffer::new();
    b.push(&[0, 1, 2, 3]);
    let mut r = b.reader();
    assert_eq!(r.seek(&b, SeekFrom::Start(6)), SeekStep::AwaitData(6));
    assert_eq!(r.pos(), 0);
    assert_eq!(r.settle(&b, 6), None);
    b.push(&[4, 5, 6]);
    assert_eq!(r.settle(&b, 6), Some(6));
    let mut buf = [0u8; 1];
    assert_eq!(r.read(&b, &mut buf), ReadStep::Data(1));
    assert_eq!(buf[0], 6);
}

#[test]
fn seek_past_end_of_complete_stream_clamps() {
    let mut b = StreamingBuffer::new();
    b.push(&[0, 1, 2]);
    b.mark_complete();
    let mut r = b.reader();
    assert_eq!(r.seek(&b, SeekFrom::Start(100)), SeekStep::Settled(3));
    let mut buf = [0u8; 1];
    assert_eq!(r.read(&b, &mut buf), ReadStep::EndOfStream);
}

#[test]
fn seek_from_end_needs_completion() {
    let mut b = StreamingBuffer::new();
    b.push(&[0, 1, 2, 3, 4]);
    let mut r = b.reader();
    assert_eq!(r.seek(&b, SeekFrom::End(-1)), SeekStep::AwaitCompletion);
    assert_eq!(r.pos(), 0);
    b.mark_complete();
    assert_eq!(r.seek(&b, SeekFrom::End(-1)), SeekStep::Settled(4));
    assert_eq!(r.seek(&b, SeekFrom::End(-9)), SeekStep::Settled(0));
    assert_eq!(r.seek(&b, SeekFrom::End(3)), SeekStep::Settled(5));
}

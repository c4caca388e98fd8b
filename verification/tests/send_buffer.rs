use magnum_tcp::tcp::send_buffer::{SendBuffer, SEND_BUF_SIZE};

#[test]
fn write_and_read_single_segment() {
    let mut sb = SendBuffer::new(0);
    sb.write(b"hello");
    let (seq, data) = sb.next_segment(1024).unwrap();
    assert_eq!(seq, 1);
    assert_eq!(&data, b"hello");
}

#[test]
fn acknowledge_advances_una() {
    let mut sb = SendBuffer::new(0);
    sb.write(b"hello");
    let (seq, data) = sb.next_segment(1024).unwrap();
    sb.advance_nxt(data.len());
    sb.acknowledge(seq.wrapping_add(data.len() as u32));
    assert!(sb.next_segment(1024).is_none());
    assert!(sb.is_empty());
}

#[test]
fn partial_acknowledge() {
    let mut sb = SendBuffer::new(0);
    sb.write(b"helloworld");
    let (seq, data) = sb.next_segment(5).unwrap();
    assert_eq!(&data, b"hello");
    sb.advance_nxt(5);
    sb.acknowledge(seq.wrapping_add(5));

    let (seq2, data2) = sb.next_segment(1024).unwrap();
    assert_eq!(&data2, b"world");
    sb.advance_nxt(5);
    sb.acknowledge(seq2.wrapping_add(5));
    assert!(sb.is_empty());
}

#[test]
fn respects_max_len() {
    let mut sb = SendBuffer::new(99);
    sb.write(b"abcdefgh");
    let (_, data) = sb.next_segment(4).unwrap();
    assert_eq!(&data, b"abcd");
}

#[test]
fn write_respects_capacity() {
    let mut sb = SendBuffer::new(0);
    let big = vec![0u8; SEND_BUF_SIZE + 100];
    let n = sb.write(&big);
    assert_eq!(n, SEND_BUF_SIZE);
}

#[test]
fn wraparound_write() {
    let mut sb = SendBuffer::new(0);
    let half = vec![b'a'; SEND_BUF_SIZE / 2];
    sb.write(&half);
    let (seq, data) = sb.next_segment(SEND_BUF_SIZE / 2).unwrap();
    sb.advance_nxt(data.len());
    sb.acknowledge(seq.wrapping_add(data.len() as u32));

    let second = vec![b'b'; SEND_BUF_SIZE / 2 + 10];
    let written = sb.write(&second);
    assert_eq!(written, SEND_BUF_SIZE / 2 + 10);
    let (_, seg) = sb.next_segment(SEND_BUF_SIZE).unwrap();
    assert_eq!(seg.len(), SEND_BUF_SIZE / 2 + 10);
    assert!(seg.iter().all(|&b| b == b'b'));
}

#[test]
fn seq_starts_after_iss() {
    let mut sb = SendBuffer::new(999);
    sb.write(b"x");
    let (seq, _) = sb.next_segment(1).unwrap();
    assert_eq!(seq, 1000);
    assert_eq!(sb.una(), 1000);
}

#[test]
fn numbers_wrap_around_with_the_data() {
    let mut sb = SendBuffer::new(u32::MAX - 3);
    sb.write(b"abcdefgh");
    let (seq, data) = sb.next_segment(4).unwrap();
    assert_eq!((seq, &data[..]), (u32::MAX - 2, &b"abcd"[..]));
    sb.advance_nxt(4);
    let (seq, data) = sb.next_segment(100).unwrap();
    assert_eq!((seq, &data[..]), (1, &b"efgh"[..]));
    sb.advance_nxt(4);
    assert!(sb.next_segment(1).is_none());
    sb.acknowledge(1);
    assert_eq!((sb.una(), sb.nxt(), sb.buffered()), (1, 5, 4));
    sb.acknowledge(5);
    assert!(sb.is_empty());
}

#[test]
fn acknowledgment_beyond_the_buffer_changes_nothing() {
    let mut sb = SendBuffer::new(0);
    sb.write(b"abc");
    sb.acknowledge(5);
    sb.acknowledge(0);
    assert_eq!((sb.una(), sb.buffered()), (1, 3));
}

#[test]
fn segments_add_up_to_what_was_written() {
    let mut sb = SendBuffer::new(123);
    let stream: Vec<u8> = (0..200_000u32).map(|i| (i * 7 + i / 251) as u8).collect();
    let mut written = 0;
    let mut sent: Vec<u8> = Vec::new();
    while sent.len() < stream.len() {
        written += sb.write(&stream[written..]);
        while let Some((seq, data)) = sb.next_segment(999) {
            assert_eq!(seq, 124u32.wrapping_add(sent.len() as u32));
            sent.extend_from_slice(&data);
            sb.advance_nxt(data.len());
        }
        sb.acknowledge(124u32.wrapping_add(sent.len() as u32));
    }
    assert_eq!(sent, stream);
    assert!(sb.next_segment(1).is_none());
}

#[test]
fn no_room_for_nothing() {
    let mut sb = SendBuffer::new(0);
    assert_eq!(sb.write(b""), 0);
    assert!(sb.next_segment(10).is_none());
    sb.write(b"x");
    assert!(sb.next_segment(0).is_none());
}

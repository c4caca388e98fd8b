use magnum_tcp::tcp::recv_buffer::{RecvBuffer, RECV_BUF_SIZE};

#[test]
fn in_order_insert_and_read() {
    let mut rb = RecvBuffer::new(0);
    rb.insert(1, b"hello");
    assert_eq!(rb.available(), 5);
    let mut out = [0u8; 5];
    let n = rb.read(&mut out);
    assert_eq!(n, 5);
    assert_eq!(&out, b"hello");
    assert!(rb.is_empty());
}

#[test]
fn out_of_order_reassembly() {
    let mut rb = RecvBuffer::new(0);
    rb.insert(6, b"world");
    assert_eq!(rb.available(), 0);
    rb.insert(1, b"hello");
    assert_eq!(rb.available(), 10);
    let mut out = [0u8; 10];
    let n = rb.read(&mut out);
    assert_eq!(n, 10);
    assert_eq!(&out, b"helloworld");
}

#[test]
fn next_expected_advances() {
    let mut rb = RecvBuffer::new(99);
    assert_eq!(rb.next_expected(), 100);
    rb.insert(100, b"abc");
    assert_eq!(rb.next_expected(), 103);
}

#[test]
fn window_shrinks_as_buffer_fills() {
    let mut rb = RecvBuffer::new(0);
    assert_eq!(rb.window(), u16::MAX); // capped at u16::MAX since RECV_BUF_SIZE > u16::MAX
    rb.insert(1, &vec![0u8; 1000]);
    assert_eq!(rb.window() as usize, RECV_BUF_SIZE - 1000);
}

#[test]
fn partial_read() {
    let mut rb = RecvBuffer::new(0);
    rb.insert(1, b"helloworld");
    let mut out = [0u8; 5];
    assert_eq!(rb.read(&mut out), 5);
    assert_eq!(&out, b"hello");
    assert_eq!(rb.available(), 5);
    let mut out2 = [0u8; 5];
    assert_eq!(rb.read(&mut out2), 5);
    assert_eq!(&out2, b"world");
}

#[test]
fn large_transfer_in_order() {
    let mut rb = RecvBuffer::new(0);
    let payload: Vec<u8> = (0..255u8).cycle().take(1024 * 1024).collect();
    let chunk = 1400;
    let mut seq: u32 = 1;
    let mut total_read = 0usize;
    let mut readback = Vec::new();

    for chunk_data in payload.chunks(chunk) {
        rb.insert(seq, chunk_data);
        seq = seq.wrapping_add(chunk_data.len() as u32);

        let mut tmp = vec![0u8; rb.available()];
        let n = rb.read(&mut tmp);
        readback.extend_from_slice(&tmp[..n]);
        total_read += n;
    }

    assert_eq!(total_read, payload.len());
    assert_eq!(readback, payload);
}

#[test]
fn large_transfer_out_of_order() {
    let mut rb = RecvBuffer::new(0);
    let payload: Vec<u8> = (0..255u8).cycle().take(4096).collect();
    let chunks: Vec<(u32, Vec<u8>)> = payload
        .chunks(256)
        .scan(1u32, |seq, chunk| {
            let s = *seq;
            *seq = seq.wrapping_add(chunk.len() as u32);
            Some((s, chunk.to_vec()))
        })
        .collect();

    for (seq, data) in chunks.iter().step_by(2) {
        rb.insert(*seq, data);
    }
    for (seq, data) in chunks.iter().skip(1).step_by(2) {
        rb.insert(*seq, data);
    }

    let mut out = vec![0u8; 4096];
    let n = rb.read(&mut out);
    assert_eq!(n, 4096);
    assert_eq!(out, payload);
}

#[test]
fn duplicate_segment_ignored() {
    let mut rb = RecvBuffer::new(0);
    rb.insert(1, b"hello");
    rb.insert(1, b"hello");
    assert_eq!(rb.available(), 5);
}

#[test]
fn partial_overlap_trimmed() {
    let mut rb = RecvBuffer::new(0);
    rb.insert(1, b"hello");
    // seq=4, nxt=6 → trim 2 bytes → effective "world" committed at nxt
    rb.insert(4, b"loworld");
    assert_eq!(rb.available(), 10);
    let mut out = [0u8; 10];
    rb.read(&mut out);
    assert_eq!(&out, b"helloworld");
}

fn read_all(rb: &mut RecvBuffer) -> Vec<u8> {
    let mut out = vec![0u8; rb.available()];
    let n = rb.read(&mut out);
    assert_eq!(n, out.len());
    out
}

#[test]
fn staged_segments_may_overlap_what_fills_the_gap() {
    let mut rb = RecvBuffer::new(0);
    rb.insert(4, b"defgh");
    rb.insert(7, b"ghij");
    rb.insert(1, b"abcde");
    assert_eq!(rb.next_expected(), 11);
    assert_eq!(read_all(&mut rb), b"abcdefghij");
}

#[test]
fn staged_segment_that_was_covered_meanwhile_is_forgotten() {
    let mut rb = RecvBuffer::new(0);
    rb.insert(3, b"cd");
    rb.insert(1, b"abcdef");
    assert_eq!(rb.next_expected(), 7);
    rb.insert(7, b"g");
    assert_eq!(read_all(&mut rb), b"abcdefg");
}

#[test]
fn reassembly_across_the_wraparound() {
    let irs = u32::MAX - 4;
    let mut rb = RecvBuffer::new(irs);
    rb.insert(irs.wrapping_add(9), b"ijkl");
    rb.insert(irs.wrapping_add(5), b"efgh");
    assert_eq!(rb.available(), 0);
    rb.insert(irs.wrapping_add(1), b"abcd");
    assert_eq!(rb.next_expected(), irs.wrapping_add(13));
    assert_eq!(read_all(&mut rb), b"abcdefghijkl");
}

#[test]
fn any_order_of_overlapping_segments_gives_the_stream() {
    let stream: Vec<u8> = (0..600u32).map(|i| (i * 31 % 251) as u8).collect();
    let mut state: u32 = 1;
    for irs in [0u32, u32::MAX - 300] {
        let mut rb = RecvBuffer::new(irs);
        let mut pieces: Vec<(usize, usize)> = (0..600).step_by(20).map(|at| (at, 35.min(600 - at))).collect();
        for i in (1..pieces.len()).rev() {
            state = state.wrapping_mul(1_664_525).wrapping_add(1_013_904_223);
            pieces.swap(i, (state >> 8) as usize % (i + 1));
        }
        for (at, len) in pieces {
            rb.insert(irs.wrapping_add(1 + at as u32), &stream[at..at + len]);
            rb.insert(irs.wrapping_add(1 + at as u32), &stream[at..at + len]);
        }
        assert_eq!(read_all(&mut rb), stream);
        assert_eq!(rb.next_expected(), irs.wrapping_add(601));
    }
}

#[test]
fn full_buffer_takes_what_fits_and_counts_no_more() {
    let mut rb = RecvBuffer::new(0);
    rb.insert(1, &vec![1u8; RECV_BUF_SIZE - 2]);
    rb.insert(1 + RECV_BUF_SIZE as u32 - 2, b"abcd");
    assert_eq!(rb.available(), RECV_BUF_SIZE);
    assert_eq!(rb.window(), 0);
    assert_eq!(rb.next_expected(), 1 + RECV_BUF_SIZE as u32);
    let all = read_all(&mut rb);
    assert_eq!(&all[RECV_BUF_SIZE - 2..], b"ab");
    rb.insert(1 + RECV_BUF_SIZE as u32, b"cd");
    assert_eq!(read_all(&mut rb), b"cd");
}

#[test]
fn first_segment_staged_under_a_number_stays() {
    let mut rb = RecvBuffer::new(0);
    rb.insert(3, b"c");
    rb.insert(3, b"cdef");
    rb.insert(1, b"ab");
    assert_eq!(rb.next_expected(), 4);
    assert_eq!(read_all(&mut rb), b"abc");
}

#[test]
fn reading_leaves_the_rest_of_the_target_alone() {
    let mut rb = RecvBuffer::new(0);
    rb.insert(1, b"xy");
    let mut out = [9u8; 5];
    assert_eq!(rb.read(&mut out), 2);
    assert_eq!(out, [b'x', b'y', 9, 9, 9]);
    assert_eq!(rb.read(&mut out), 0);
}

#[test]
fn inserting_only_extends_what_can_be_read() {
    let mut rb = RecvBuffer::new(u32::MAX - 20);
    let mut x: u32 = 7;
    for _ in 0..2000 {
        x = x.wrapping_mul(1664525).wrapping_add(1013904223);
        let seq = rb.next_expected().wrapping_add(x >> 20 & 63).wrapping_sub(24);
        let data = vec![(x >> 8) as u8; (x >> 26) as usize];
        let (before, nxt) = (rb.available(), rb.next_expected());
        rb.insert(seq, &data);
        assert!(rb.available() >= before && rb.available() <= RECV_BUF_SIZE);
        assert_eq!(rb.next_expected(), nxt.wrapping_add((rb.available() - before) as u32));
        if data.is_empty() {
            assert_eq!(rb.available(), before);
        }
    }
}

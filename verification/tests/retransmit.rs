use magnum_tcp::clock::NANOS_PER_MILLI;
use magnum_tcp::tcp::retransmit::{
    RetransmitQueue, INITIAL_RTO, MAX_RTO, MIN_RTO, RETRANSMIT_QUEUE_MAX,
};

#[test]
fn push_and_acknowledge_removes_entry() {
    let mut rq = RetransmitQueue::new();
    rq.push(1000, b"hello".to_vec());
    assert_eq!(rq.len(), 1);
    rq.acknowledge_and_sample_rtt(1005);
    assert!(rq.is_empty());
}

#[test]
fn partial_ack_keeps_entry() {
    let mut rq = RetransmitQueue::new();
    rq.push(1000, b"hello world".to_vec());
    rq.acknowledge_and_sample_rtt(1005);
    assert_eq!(rq.len(), 1);
    rq.acknowledge_and_sample_rtt(1011);
    assert!(rq.is_empty());
}

#[test]
fn first_unacked_returns_first_entry() {
    let mut rq = RetransmitQueue::new();
    rq.push(100, b"abc".to_vec());
    rq.push(103, b"def".to_vec());
    let (seq, data) = rq.first_unacked().unwrap();
    assert_eq!(seq, 100);
    assert_eq!(&data, b"abc");
}

#[test]
fn expired_segments_returns_timed_out_entries() {
    let mut rq = RetransmitQueue::new();
    rq.rto = 1;
    rq.push_at(500, b"data".to_vec(), 0);
    let expired = rq.expired_at(NANOS_PER_MILLI);
    assert_eq!(expired.len(), 1);
    assert_eq!(expired[0].0, 500);
    assert_eq!(&expired[0].1, b"data");
}

#[test]
fn rto_doubles_on_retransmit() {
    let mut rq = RetransmitQueue::new();
    rq.rto = NANOS_PER_MILLI;
    rq.push_at(1, b"x".to_vec(), 0);
    rq.expired_at(2 * NANOS_PER_MILLI);
    assert_eq!(rq.rto, 2 * NANOS_PER_MILLI);
}

#[test]
fn multiple_entries_independently_acknowledged() {
    let mut rq = RetransmitQueue::new();
    rq.push(100, b"aaa".to_vec());
    rq.push(103, b"bbb".to_vec());
    rq.push(106, b"ccc".to_vec());
    rq.acknowledge_and_sample_rtt(103);
    assert_eq!(rq.len(), 2);
    rq.acknowledge_and_sample_rtt(109);
    assert!(rq.is_empty());
}

#[test]
fn resent_segments_are_not_measured() {
    let mut rq = RetransmitQueue::new();
    rq.push_at(100, b"abc".to_vec(), 0);
    rq.push_at(103, b"def".to_vec(), 600 * NANOS_PER_MILLI);
    let expired = rq.expired_at(INITIAL_RTO);
    assert_eq!(expired, vec![(100, b"abc".to_vec())]);
    rq.acknowledge_at(106, 1500 * NANOS_PER_MILLI);
    assert!(rq.is_empty());
    assert_eq!(rq.rto, 3 * 900 * NANOS_PER_MILLI);
}

#[test]
fn acknowledgment_of_resent_segments_leaves_the_timeout() {
    let mut rq = RetransmitQueue::new();
    rq.push_at(100, b"abc".to_vec(), 0);
    assert_eq!(rq.expired_at(INITIAL_RTO).len(), 1);
    assert_eq!(rq.rto, 2 * INITIAL_RTO);
    rq.acknowledge_at(103, INITIAL_RTO + 1);
    assert!(rq.is_empty());
    assert_eq!(rq.rto, 2 * INITIAL_RTO);
}

#[test]
fn timeout_follows_the_round_trips() {
    let mut rq = RetransmitQueue::new();
    rq.push_at(0, vec![1], 0);
    rq.acknowledge_at(1, 100 * NANOS_PER_MILLI);
    assert_eq!(rq.rto, 300 * NANOS_PER_MILLI);
    rq.push_at(1, vec![1], 0);
    rq.acknowledge_at(2, 200 * NANOS_PER_MILLI);
    assert_eq!(rq.rto, 362_500_000);
}

#[test]
fn one_acknowledgment_may_measure_several_segments() {
    let mut rq = RetransmitQueue::new();
    rq.push_at(0, vec![1], 100 * NANOS_PER_MILLI);
    rq.push_at(1, vec![1], 0);
    rq.acknowledge_at(2, 200 * NANOS_PER_MILLI);
    assert_eq!(rq.rto, 362_500_000);
}

#[test]
fn timeout_agrees_with_real_numbers_to_a_nanosecond() {
    let mut rq = RetransmitQueue::new();
    let (mut srtt, mut rttvar): (Option<f64>, f64) = (None, 0.0);
    let mut x: u64 = 1;
    for i in 0..10_000u32 {
        x = x.wrapping_mul(6364136223846793005).wrapping_add(1442695040888963407);
        let rtt = (x >> 33) as u128 % 700_000_000 + 1;
        rq.push_at(i, vec![0], 0);
        rq.acknowledge_at(i + 1, rtt);
        let r = rtt as f64 / 1e9;
        srtt = Some(match srtt {
            None => {
                rttvar = r / 2.0;
                r
            }
            Some(s) => {
                rttvar = 0.75 * rttvar + 0.25 * (s - r).abs();
                0.875 * s + 0.125 * r
            }
        });
        let expected = (srtt.unwrap() + 4.0 * rttvar).clamp(0.2, 60.0) * 1e9;
        assert!((rq.rto as f64 - expected).abs() <= 1.0);
    }
}

#[test]
fn round_trips_as_expected_shrink_the_timeout() {
    let mut rq = RetransmitQueue::new();
    let mut last = u128::MAX;
    for i in 0..40u32 {
        rq.push_at(i, vec![0], 0);
        rq.acknowledge_at(i + 1, 500 * NANOS_PER_MILLI);
        assert!(rq.rto <= last);
        last = rq.rto;
    }
    assert!(last - 500 * NANOS_PER_MILLI < NANOS_PER_MILLI);
}

#[test]
fn queue_takes_no_more_than_its_bound() {
    let mut rq = RetransmitQueue::new();
    for i in 0..200u32 {
        rq.push(i, vec![0]);
    }
    assert_eq!(rq.len(), RETRANSMIT_QUEUE_MAX);
    assert_eq!(rq.first_unacked().unwrap().0, 0);
    rq.acknowledge_and_sample_rtt(200);
    assert!(rq.is_empty());
    assert!(rq.first_unacked().is_none());
    assert_eq!(rq.rto, MIN_RTO);
}

#[test]
fn timeout_doubles_up_to_its_bound() {
    let mut rq = RetransmitQueue::new();
    assert_eq!(rq.rto, INITIAL_RTO);
    rq.push_at(0, vec![1], 0);
    let mut now = 0;
    for expected in [2u128, 4, 8, 16, 32, 60, 60] {
        now += rq.rto - 1;
        assert!(rq.expired_at(now).is_empty());
        now += 1;
        assert_eq!(rq.expired_at(now).len(), 1);
        assert_eq!(rq.rto, expected * 1000 * NANOS_PER_MILLI);
    }
}

#[test]
fn estimates_are_held_to_the_bounds() {
    let mut rq = RetransmitQueue::new();
    rq.push_at(0, vec![1], 0);
    rq.acknowledge_at(1, 1);
    assert_eq!(rq.rto, MIN_RTO);
    let mut rq = RetransmitQueue::new();
    rq.push_at(0, vec![1], 0);
    rq.acknowledge_at(1, 30_000 * NANOS_PER_MILLI);
    assert_eq!(rq.rto, MAX_RTO);
    rq.push_at(1, vec![1], 0);
    rq.acknowledge_at(2, u128::MAX);
    assert_eq!(rq.rto, MAX_RTO);
}

#[test]
fn clock_of_the_queue_goes_forward() {
    let rq = RetransmitQueue::new();
    let first = rq.now();
    let mut last = first;
    for _ in 0..100_000 {
        let now = rq.now();
        assert!(now >= last);
        last = now;
    }
    assert!(last > first);
}

#[test]
fn segments_expire_on_the_clock() {
    let mut rq = RetransmitQueue::new();
    rq.push(1, b"x".to_vec());
    assert!(rq.expired_segments().is_empty());
    rq.rto = 0;
    assert_eq!(rq.expired_segments().len(), 1);
}

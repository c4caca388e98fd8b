use magnum_tcp::chaos::{ChaosConfig, ChaosMiddleware, RATE_ONE};
use magnum_tcp::clock::{Clock, NANOS_PER_MILLI};

/// A probability as a rate.
fn rate(p: f64) -> u64 {
    (p * RATE_ONE as f64).ceil() as u64
}

#[test]
fn zero_drop_rate_passes_all() {
    let mut chaos = ChaosMiddleware::new(ChaosConfig::none());
    let now = Clock::start().now();
    for _ in 0..100 {
        let out = chaos.intercept(vec![1, 2, 3], now);
        assert_eq!(out.len(), 1);
    }
}

#[test]
fn full_drop_rate_drops_all() {
    let mut chaos = ChaosMiddleware::new(ChaosConfig {
        drop_rate: rate(1.0),
        reorder_rate: rate(0.0),
        max_jitter_ms: 0,
    });
    let now = Clock::start().now();
    for _ in 0..100 {
        let out = chaos.intercept(vec![1, 2, 3], now);
        assert!(out.is_empty());
    }
}

#[test]
fn ten_percent_drop_rate_is_approximate() {
    let mut chaos = ChaosMiddleware::new(ChaosConfig::packet_loss(rate(0.10)));
    let now = Clock::start().now();
    let mut passed = 0usize;
    for _ in 0..10_000 {
        let out = chaos.intercept(vec![1], now);
        passed += out.len();
    }
    assert!(passed > 8700 && passed < 9300, "passed = {passed}");
}

#[test]
fn reordered_packets_released_when_time_advances() {
    let mut chaos = ChaosMiddleware::new(ChaosConfig {
        drop_rate: rate(0.0),
        reorder_rate: rate(1.0),
        max_jitter_ms: 100,
    });
    let t0 = Clock::start().now();
    chaos.intercept(vec![1], t0);
    chaos.intercept(vec![2], t0);
    let early = chaos.flush_ready(t0);
    assert!(early.is_empty());
    let late = chaos.flush_ready(t0 + 200 * NANOS_PER_MILLI);
    assert_eq!(late.len(), 2);
}

// The generator draws 0.9941, 0.0504, 0.2573, 0.4256, 0.2427, 0.5585, ... from its seed.

#[test]
fn reordered_frame_comes_out_behind_the_next_one() {
    let mut chaos = ChaosMiddleware::new(ChaosConfig {
        drop_rate: rate(0.0),
        reorder_rate: rate(0.10),
        max_jitter_ms: 0,
    });
    assert!(chaos.intercept(vec![1], 5).is_empty());
    assert!(chaos.flush_ready(5).is_empty());
    assert_eq!(chaos.intercept(vec![2], 5), vec![vec![2], vec![1]]);
    assert_eq!(chaos.intercept(vec![3], 5), vec![vec![3]]);
}

#[test]
fn reordered_frame_does_not_wait_forever() {
    let mut chaos = ChaosMiddleware::new(ChaosConfig {
        drop_rate: 0,
        reorder_rate: RATE_ONE,
        max_jitter_ms: 0,
    });
    assert!(chaos.intercept(vec![1], 5).is_empty());
    assert!(chaos.intercept(vec![2], 5).is_empty());
    assert_eq!(chaos.flush_ready(6), vec![vec![1], vec![2]]);
    assert!(chaos.flush_ready(7).is_empty());
}

#[test]
fn drops_exactly_the_frames_drawn() {
    let mut chaos = ChaosMiddleware::new(ChaosConfig::packet_loss(rate(0.25)));
    assert_eq!(chaos.intercept(vec![1], 0), vec![vec![1]]);
    assert_eq!(chaos.intercept(vec![2], 0), vec![vec![2]]);
    assert!(chaos.intercept(vec![3], 0).is_empty());
    assert_eq!(chaos.intercept(vec![4], 0), vec![vec![4]]);
}

#[test]
fn delayed_frame_is_released_at_its_moment() {
    let mut chaos = ChaosMiddleware::new(ChaosConfig {
        drop_rate: 0,
        reorder_rate: 0,
        max_jitter_ms: 100,
    });
    let start = 7;
    let delay = (0x0ce7c497a6b09c3bu64 % 101) as u128 * NANOS_PER_MILLI;
    assert!(chaos.intercept(vec![1], start).is_empty());
    assert!(chaos.flush_ready(start + delay - 1).is_empty());
    assert_eq!(chaos.flush_ready(start + delay), vec![vec![1]]);
}

#[test]
fn frames_are_neither_lost_nor_doubled_without_drops() {
    let mut chaos = ChaosMiddleware::new(ChaosConfig {
        drop_rate: 0,
        reorder_rate: rate(0.5),
        max_jitter_ms: 3,
    });
    let mut out: Vec<u32> = Vec::new();
    let mut take = |frames: Vec<Vec<u8>>| {
        for f in frames {
            out.push(u32::from_le_bytes(f.try_into().unwrap()));
        }
    };
    for i in 0..2000u32 {
        take(chaos.intercept(i.to_le_bytes().to_vec(), i as u128 * NANOS_PER_MILLI / 2));
    }
    take(chaos.flush_ready(u128::MAX));
    assert_eq!(out.len(), 2000);
    assert!(out.windows(2).any(|w| w[0] > w[1]));
    out.sort();
    assert_eq!(out, (0..2000).collect::<Vec<u32>>());
}

#[test]
fn no_frame_outlasts_the_longest_delay() {
    for reorder_rate in [0, rate(0.5)] {
        let mut chaos = ChaosMiddleware::new(ChaosConfig {
            drop_rate: 0,
            reorder_rate,
            max_jitter_ms: 20,
        });
        let mut out = 0;
        for i in 0..500u128 {
            out += chaos.intercept(vec![1], i * NANOS_PER_MILLI).len();
        }
        out += chaos.flush_ready((499 + 20) * NANOS_PER_MILLI).len();
        assert_eq!(out, 500);
    }
}

#[test]
fn huge_jitter_is_no_problem() {
    let mut chaos = ChaosMiddleware::new(ChaosConfig {
        drop_rate: 0,
        reorder_rate: 0,
        max_jitter_ms: u64::MAX,
    });
    assert!(chaos.intercept(vec![1], u128::MAX).len() <= 1);
}

#[test]
fn loss_is_held_to_certainty_and_faults_are_noticed() {
    assert_eq!(ChaosConfig::packet_loss(u64::MAX).drop_rate, RATE_ONE);
    assert!(!ChaosConfig::none().is_active());
    assert!(ChaosConfig::packet_loss(1).is_active());
    assert!(ChaosConfig { max_jitter_ms: 1, ..ChaosConfig::none() }.is_active());
    assert!(ChaosConfig { reorder_rate: 1, ..ChaosConfig::none() }.is_active());
}

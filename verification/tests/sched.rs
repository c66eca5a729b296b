use correctness_bench::rate::Rate;
use correctness_bench::sched::{ConnSched, RateSchedule};

/// 1000 requests per second: one in every 1000 microseconds.
fn rps1000() -> Rate {
    Rate { requests: 1, per_us: 1000 }
}

#[test]
fn intended_send_times_step_by_the_interval() {
    let mut s = ConnSched::new(0, Rate { requests: 1000, per_us: 1_000_000 });
    let t0 = s.intended_send_time();
    s.advance();
    let t1 = s.intended_send_time();
    s.advance();
    let t2 = s.intended_send_time();
    assert_eq!(t1 - t0, 1000);
    assert_eq!(t2 - t1, 1000);
}

#[test]
fn on_schedule_returns_remaining_wait() {
    let mut s = ConnSched::new(0, rps1000());
    assert_eq!(s.usec_to_next_send(0), 0);
    s.advance();
    assert_eq!(s.usec_to_next_send(600), 400);
}

#[test]
fn behind_engages_catch_up() {
    let mut s = ConnSched::new(0, rps1000());
    s.advance();
    let wait = s.usec_to_next_send(4000);
    assert_eq!(wait, 0);
    assert!(!s.caught_up);
    s.advance();
    let wait = s.usec_to_next_send(4000);
    assert_eq!(wait, 500);
}

#[test]
fn catch_up_flag_resets_when_back_on_pace() {
    let mut s = ConnSched::new(0, rps1000());
    s.advance();
    s.usec_to_next_send(5000);
    assert!(!s.caught_up);
    s.complete = 50;
    s.usec_to_next_send(10_000);
    assert!(s.caught_up);
}

#[test]
fn intended_send_times_are_monotonic() {
    let mut s = ConnSched::new(123456, Rate { requests: 17, per_us: 10_000 });
    let mut prev = s.intended_send_time();
    for _ in 0..10_000 {
        s.advance();
        let now = s.intended_send_time();
        assert!(now >= prev, "intended-send-time went backwards");
        prev = now;
    }
}

#[test]
fn ramp_intended_times_match_inverse_integral() {
    let mut s = ConnSched::ramp(0, 1_000_000, rps1000());
    assert_eq!(s.intended_send_time(), 0, "n=0 fires at the start");
    let mut prev = 0u64;
    for _ in 0..500 {
        s.advance();
        let t = s.intended_send_time();
        assert!(t >= prev, "ramp intended time regressed: {} < {}", t, prev);
        prev = t;
    }
    let t_end = s.intended_send_time();
    assert!(t_end >= 990_000 && t_end <= 1_010_000, "ramp end time = {}", t_end);
    assert_eq!(t_end, 1_000_000);
}

#[test]
fn ramp_fires_immediately_when_behind() {
    let mut s = ConnSched::ramp(0, 1_000_000, rps1000());
    s.advance();
    let wait = s.usec_to_next_send(1_000_000);
    assert_eq!(wait, 0);
    assert!(!s.caught_up);
}

#[test]
fn ramp_slots_are_integer_roots() {
    let peak = rps1000();
    // 2 * 1e6 * 1 * 1000 = 2e9, whose root is 44721.
    assert_eq!(peak.ramp_slot_us(1_000_000, 1), 44_721);
    // 8e9: 89442.
    assert_eq!(peak.ramp_slot_us(1_000_000, 4), 89_442);
    // 18e9: 134164.
    assert_eq!(peak.ramp_slot_us(1_000_000, 9), 134_164);
    // The largest arguments there are.
    let slow = Rate { requests: 1, per_us: u64::MAX };
    assert_eq!(slow.ramp_slot_us(u64::MAX, u64::MAX), u64::MAX);
    let one = Rate { requests: u64::MAX, per_us: 2 };
    assert_eq!(one.ramp_slot_us(u64::MAX, 4), 4);
    assert_eq!(one.ramp_slot_us(u64::MAX, 3), 3);
}

#[test]
fn rate_zero_reaches_only_the_first_request() {
    let none = Rate { requests: 0, per_us: 1_000_000 };
    assert_eq!(none.slot_us(0), 0);
    assert_eq!(none.slot_us(1), u64::MAX);
    assert_eq!(none.ramp_slot_us(1_000_000, 0), 0);
    assert_eq!(none.ramp_slot_us(0, 7), 0);
    assert_eq!(none.ramp_slot_us(1_000_000, 1), u64::MAX);
}

#[test]
fn slots_saturate() {
    let slow = Rate { requests: 1, per_us: u64::MAX };
    assert_eq!(slow.slot_us(1), u64::MAX);
    assert_eq!(slow.slot_us(2), u64::MAX);
    let s = ConnSched::new(1, slow);
    assert!(s.is_schedulable(0));
    let mut later = s;
    later.complete = 1;
    assert!(!later.is_schedulable(0));
}

#[test]
fn rates_in_thousandths() {
    assert_eq!(Rate::per_second(200).milli_rps(), 200_000);
    assert_eq!(Rate { requests: 200, per_us: 3_000_000 }.milli_rps(), 66_666);
    assert_eq!(Rate { requests: 1, per_us: 0 }.milli_rps(), u64::MAX);
    let ramp = RateSchedule::Ramp {
        duration_us: 10_000_000,
        peak_throughput_us: Rate::per_second(100),
    };
    assert_eq!(ramp.offered_mrps(0), 0);
    assert_eq!(ramp.offered_mrps(2_500_000), 25_000);
    assert_eq!(ramp.offered_mrps(10_000_000), 100_000);
    assert_eq!(ramp.offered_mrps(99_000_000), 100_000);
}

#[test]
fn split_and_doubled_rates() {
    let r = Rate::per_second(400);
    assert_eq!(r.split(2), Rate { requests: 400, per_us: 2_000_000 });
    assert_eq!(r.doubled(), Rate { requests: 800, per_us: 1_000_000 });
    assert_eq!(r.split(2).slot_us(1), 5000);
}

#[test]
fn catch_up_spacing_is_half_the_interval() {
    let mut s = ConnSched::new(0, rps1000());
    s.complete = 3;
    assert_eq!(s.usec_to_next_send(10_000), 0);
    for k in 1..=5u64 {
        s.advance();
        // At the moment the window opened, the k-th request is k/2 intervals off.
        let mut probe = s;
        assert_eq!(probe.usec_to_next_send(10_000), 500 * k);
    }
}

#[test]
fn catch_up_never_overshoots() {
    for rps in [1u64, 7, 333, 1000, 99_999] {
        for behind_us in [1u64, 10, 999, 10_000_000] {
            for complete in [1u64, 2, 50, 999] {
                let mut s = ConnSched::new(0, Rate::per_second(rps));
                s.complete = complete;
                let now = s.intended_send_time() + behind_us;
                let wait = s.usec_to_next_send(now);
                assert!(wait <= 1_000_000 / rps + 1);
            }
        }
    }
    // The whole range of rates, in thousandths of a request per second.
    let mut draw = draws(7);
    for _ in 0..20_000 {
        let milli_rps = 1_000 + draw() % 99_999_000;
        let mut s = ConnSched::new(0, Rate { requests: milli_rps, per_us: 1_000_000_000 });
        s.complete = 1 + draw() % 999;
        let now = s.intended_send_time() + 1 + draw() % 9_999_999;
        let wait = s.usec_to_next_send(now);
        assert!(wait <= 1_000_000_000 / milli_rps + 1);
    }
}

/// Numbers spread over the range of `u64`, the same ones in every run.
fn draws(seed: u64) -> impl FnMut() -> u64 {
    let mut x = seed;
    move || {
        x = x.wrapping_add(0x9e37_79b9_7f4a_7c15);
        let mut z = x;
        z = (z ^ (z >> 30)).wrapping_mul(0xbf58_476d_1ce4_e5b9);
        z = (z ^ (z >> 27)).wrapping_mul(0x94d0_49bb_1331_11eb);
        z ^ (z >> 31)
    }
}

#[test]
fn intended_send_times_monotonic() {
    for (start, rps) in [(0u64, 1u64), (999_999, 3), (17, 12_345), (5, 99_999)] {
        let mut s = ConnSched::new(start, Rate::per_second(rps));
        let mut prev = s.intended_send_time();
        for _ in 0..1_000 {
            s.advance();
            let now = s.intended_send_time();
            assert!(now >= prev);
            prev = now;
        }
    }
    // The whole range of rates, in thousandths of a request per second.
    let mut draw = draws(11);
    for _ in 0..1_000 {
        let milli_rps = 1_000 + draw() % 99_999_000;
        let rate = Rate { requests: milli_rps, per_us: 1_000_000_000 };
        let mut s = ConnSched::new(draw() % 1_000_000, rate);
        let mut prev = s.intended_send_time();
        for _ in 0..1 + draw() % 999 {
            s.advance();
            let now = s.intended_send_time();
            assert!(now >= prev);
            prev = now;
        }
    }
}

#[test]
fn deferring_shifts_every_slot_and_rearms_the_window() {
    let mut s = ConnSched::new(100, rps1000());
    s.complete = 4;
    s.usec_to_next_send(50_000);
    assert!(!s.caught_up);
    let before = s.intended_send_time();
    s.defer_origin(60_000);
    assert!(s.caught_up);
    assert_eq!(s.intended_send_time(), before + 60_000);
    s.defer_origin(u64::MAX);
    assert_eq!(s.thread_start_us, u64::MAX);
}

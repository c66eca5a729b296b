use correctness_bench::tally::{Tally, Verdict};
use correctness_bench::worker::InlineAssert;
use correctness_bench::mock::{
    decide, default_cliff, default_pct, AppState, Mode, Params, RpsMeter, HEALTHY_BODY,
    SLOW_PENALTY_MS, TRUNCATE_BODY, WRONG_VALUE_BODY,
};

fn params(mode: Mode, cliff: i64, pct: i64) -> Params {
    Params { mode, cliff_rps: cliff, pct, base_latency_ms: 0 }
}

#[test]
fn meter_counts_within_one_second_window() {
    let mut m = RpsMeter::new();
    for i in 0..50 {
        m.record(i);
    }
    assert_eq!(m.current_rps(60), 50);
}

#[test]
fn meter_drops_old_slots() {
    let mut m = RpsMeter::new();
    for i in 0..10 {
        m.record(i * 100);
    }
    assert_eq!(m.current_rps(900), 10);
    assert_eq!(m.current_rps(1500), 4);
}

#[test]
fn meter_counts_exactly_the_last_ten_slots() {
    let times: Vec<u64> = (0..400u64).map(|i| i * 37 + (i % 5) * 3).collect();
    let mut m = RpsMeter::new();
    let mut seen: Vec<u64> = Vec::new();
    for t in times {
        assert!(m.has_room());
        m.record(t);
        seen.push(t);
        let slot = t / 100;
        let want = seen.iter().filter(|x| *x / 100 + 9 >= slot && *x / 100 <= slot).count();
        assert_eq!(m.current_rps(t), want as u64);
    }
}

#[test]
fn below_cliff_always_healthy_even_in_injection_mode() {
    for mode in [Mode::Fast500, Mode::Truncate, Mode::WrongValue, Mode::SlowOk, Mode::Ratelimit] {
        let d = decide(&params(mode, 100, 100), 50, 0);
        assert!(!d.injected);
        assert_eq!(d.status, 200);
        assert_eq!(d.body, HEALTHY_BODY);
    }
}

#[test]
fn above_cliff_injects_per_mode() {
    let rps = 200;
    assert_eq!(decide(&params(Mode::Fast500, 100, 100), rps, 0).status, 500);
    let trunc = decide(&params(Mode::Truncate, 100, 100), rps, 0);
    assert_eq!(trunc.status, 200);
    assert_eq!(trunc.body, TRUNCATE_BODY);
    let wrong = decide(&params(Mode::WrongValue, 100, 100), rps, 0);
    assert_eq!(wrong.body, WRONG_VALUE_BODY);
    let slow = decide(&params(Mode::SlowOk, 100, 100), rps, 0);
    assert_eq!(slow.status, 200);
    assert_eq!(slow.body, HEALTHY_BODY);
    assert_eq!(slow.latency_ms, SLOW_PENALTY_MS);
    let rl = decide(&params(Mode::Ratelimit, 100, 100), rps, 0);
    assert_eq!(rl.status, 429);
    assert_eq!(rl.retry_after_secs, Some(1));
}

#[test]
fn healthy_mode_never_injects_above_cliff() {
    let d = decide(&params(Mode::Healthy, 0, 100), 9999, 0);
    assert!(!d.injected);
    assert_eq!(d.status, 200);
}

#[test]
fn pct_selects_a_fraction_above_cliff() {
    let p = params(Mode::Fast500, 0, 50);
    let injected = (0..100).filter(|&n| decide(&p, 10, n).injected).count();
    assert_eq!(injected, 50);
}

#[test]
fn percentages_out_of_range_mean_none_or_all() {
    let none = params(Mode::Fast500, 0, -3);
    let all = params(Mode::Fast500, -1, 1000);
    assert_eq!((7..107).filter(|&n| decide(&none, 10, n).injected).count(), 0);
    assert_eq!((7..107).filter(|&n| decide(&all, 0, n).injected).count(), 100);
    assert_eq!((default_cliff(), default_pct()), (100, 100));
}

fn ask(state: &mut AppState, mode: Mode, cliff: i64, pct: i64) -> (u16, String, Vec<(String, String)>) {
    let r = state.handle(&params(mode, cliff, pct), 5);
    let headers = r.headers.iter().map(|h| (h.0.to_string(), h.1.clone())).collect();
    (r.decision.status, r.decision.body.to_string(), headers)
}

fn header(headers: &[(String, String)], name: &str) -> Option<String> {
    headers.iter().find(|h| h.0 == name).map(|h| h.1.clone())
}

fn is_valid_json(s: &str) -> bool {
    serde_json::from_str::<serde_json::Value>(s).is_ok()
}

const BELOW: i64 = 1_000_000;
const ABOVE: i64 = 0;

#[test]
fn healthy_is_ok_below_and_above_cliff() {
    let mut s = AppState::new();
    for q in [BELOW, ABOVE] {
        let (status, body, _) = ask(&mut s, Mode::Healthy, q, 100);
        assert_eq!(status, 200);
        let v: serde_json::Value = serde_json::from_str(&body).unwrap();
        assert_eq!(v["status"], "ok");
        assert_eq!(v["count"], 3);
    }
}

#[test]
fn fast500_healthy_below_500_above() {
    let mut s = AppState::new();
    let (status, _, h) = ask(&mut s, Mode::Fast500, BELOW, 100);
    assert_eq!(status, 200, "below cliff fast500 should be healthy 200");
    assert_eq!(header(&h, "x-mock-injected").as_deref(), Some("false"));
    let (status, _, h) = ask(&mut s, Mode::Fast500, ABOVE, 100);
    assert_eq!(status, 500, "above cliff fast500 should be 500");
    assert_eq!(header(&h, "x-mock-injected").as_deref(), Some("true"));
    assert_eq!(header(&h, "x-mock-rps").as_deref(), Some("2"));
    assert_eq!(header(&h, "x-mock-mode").as_deref(), Some("fast500"));
    assert_eq!(header(&h, "content-type").as_deref(), Some("application/json"));
}

#[test]
fn truncate_returns_invalid_json_above_cliff() {
    let mut s = AppState::new();
    let (status, body, _) = ask(&mut s, Mode::Truncate, BELOW, 100);
    assert_eq!(status, 200);
    assert!(is_valid_json(&body));
    let (status, body, _) = ask(&mut s, Mode::Truncate, ABOVE, 100);
    assert_eq!(status, 200, "truncate keeps 200 (latency/status-blind)");
    assert!(!is_valid_json(&body), "truncate body must NOT parse: {body:?}");
    assert!(body.len() < HEALTHY_BODY.len(), "truncated body should be shorter");
}

#[test]
fn wrong_value_is_schema_valid_but_wrong_above_cliff() {
    let mut s = AppState::new();
    let (_, body, _) = ask(&mut s, Mode::WrongValue, BELOW, 100);
    let v: serde_json::Value = serde_json::from_str(&body).unwrap();
    assert_eq!(v["count"], 3, "below cliff is correct");
    let (status, body, _) = ask(&mut s, Mode::WrongValue, ABOVE, 100);
    assert_eq!(status, 200);
    let v: serde_json::Value = serde_json::from_str(&body).unwrap();
    assert_eq!(v["status"], "ok");
    assert_eq!(v["count"], -1, "wrong_value injects count:-1");
}

#[test]
fn slow_ok_is_slow_but_correct_above_cliff() {
    let mut s = AppState::new();
    let below = s.handle(&params(Mode::SlowOk, BELOW, 100), 0).decision;
    assert_eq!((below.status, below.latency_ms), (200, 0));
    let above = s.handle(&params(Mode::SlowOk, ABOVE, 100), 0).decision;
    assert_eq!(above.status, 200, "slow_ok stays 200 (correctness passes)");
    assert_eq!(above.body, HEALTHY_BODY);
    assert!(above.latency_ms >= SLOW_PENALTY_MS);
}

#[test]
fn ratelimit_healthy_below_429_above() {
    let mut s = AppState::new();
    let (status, _, h) = ask(&mut s, Mode::Ratelimit, BELOW, 100);
    assert_eq!(status, 200, "below cliff ratelimit should be healthy 200");
    assert_eq!(header(&h, "x-mock-injected").as_deref(), Some("false"));
    assert!(header(&h, "retry-after").is_none(), "below cliff should not carry Retry-After");
    let (status, _, h) = ask(&mut s, Mode::Ratelimit, ABOVE, 100);
    assert_eq!(status, 429, "above cliff ratelimit should be 429");
    assert_eq!(header(&h, "x-mock-injected").as_deref(), Some("true"));
    assert_eq!(header(&h, "retry-after").as_deref(), Some("1"));
}

#[test]
fn pct_50_injects_half_above_cliff() {
    let mut s = AppState::new();
    let failures = (0..100).filter(|_| ask(&mut s, Mode::Fast500, ABOVE, 50).0 == 500).count();
    assert_eq!(failures, 50, "pct=50 over 100 sequential requests should give exactly 50 failures");
}

fn rules() -> InlineAssert {
    InlineAssert {
        expected_status: vec![200],
        max_latency_us: None,
        min_body_bytes: None,
        max_body_bytes: None,
        content_type_lc_prefix: None,
        sample_every_n: 0,
        max_sampled_body_bytes: 0,
    }
}

fn verdict(rules: &InlineAssert, p: &Params, rps: u64, seq: u64) -> Verdict {
    let d = decide(p, rps, seq);
    let us = d.latency_ms * 1000 + 30;
    rules.classify(d.status, us, d.body.len() as u64, Some("application/json"))
}

#[test]
fn reported_failures_are_the_injected_ones() {
    for pct in [0, 1, 37, 99, 100, 250, -4] {
        let p = params(Mode::Fast500, 100, pct);
        let mut t = Tally::zero();
        for seq in 1234..1334 {
            t.record(verdict(&rules(), &p, 101 + seq % 7, seq));
        }
        assert_eq!(t.total, 100);
        assert_eq!(t.fail_status, pct.clamp(0, 100) as u64);
        assert_eq!(t.pass, 100 - t.fail_status);
    }
}

#[test]
fn every_mode_trips_its_own_tier() {
    let p = |mode| params(mode, 100, 100);
    let mut sized = rules();
    sized.min_body_bytes = Some(HEALTHY_BODY.len() as u64);
    assert_eq!(verdict(&sized, &p(Mode::Truncate), 101, 0), Verdict::FailSize);
    assert_eq!(verdict(&sized, &p(Mode::Truncate), 100, 0), Verdict::Pass);
    let mut timed = rules();
    timed.max_latency_us = Some(200_000);
    assert_eq!(verdict(&timed, &p(Mode::SlowOk), 101, 0), Verdict::FailLatency);
    assert_eq!(verdict(&timed, &p(Mode::SlowOk), 100, 0), Verdict::Pass);
    assert_eq!(verdict(&rules(), &p(Mode::Ratelimit), 101, 0), Verdict::RateLimited);
    // Only its value is wrong.
    assert_eq!(verdict(&sized, &p(Mode::WrongValue), 101, 0), Verdict::Pass);
}

#[test]
fn requests_out_of_order_are_counted_once_for_a_second() {
    let mut m = RpsMeter::new();
    for ms in [950, 120, 1_999, 1_010, 2_500, 2_450, 1_600] {
        m.record(ms);
    }
    for now in [2_500, 2_599, 3_100, 3_449, 5_000] {
        let before = m.current_rps(now);
        m.record(now);
        assert_eq!(m.current_rps(now), before + 1);
        assert_eq!(m.current_rps(now + 1_000), 0);
        assert_eq!(m.current_rps(now + 1_001), 0);
    }
}

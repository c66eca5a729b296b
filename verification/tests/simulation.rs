//! Whole runs against the mock target on a simulated clock: one event queue
//! stands for sockets and timers, everything else is the library.

use std::cmp::Reverse;
use std::collections::BinaryHeap;

use correctness_bench::connection::{
    ConnAction, ConnEvent, ConnResult, Connection, LiveRun, Phase, RunRules,
};
use correctness_bench::coordinator::admin::{finalize, to_response, FinalsAcc};
use correctness_bench::coordinator::dispatch::{
    close_dispatch, plan_dispatch, AggregatedTick, DispatchSpec, DispatchSummary, TickAggregator,
    WorkerSummary,
};
use correctness_bench::coordinator::{CoordinatorService, CoordinatorState};
use correctness_bench::hist::value_at_quantile;
use correctness_bench::launch::{introduction, WorkerArgs};
use correctness_bench::mock::{AppState, Mode, Params, HEALTHY_BODY, SLOW_PENALTY_MS};
use correctness_bench::proto::{
    AssertSpec, Assignment, Partial, RateLimitAction, RateLimitPolicy, RpsBucket, Target,
    WorkerEvent,
};
use correctness_bench::rate::Rate;
use correctness_bench::run::{total_of, RunReport, Tick, TickEmitter};
use correctness_bench::worker::{RlAction, RunPlan, RunSpec};
use correctness_bench::worker_node::WorkerNodeService;

/// A target: the request number and the time in microseconds give the latency in
/// microseconds and the raw response.
type Server<'a> = &'a mut dyn FnMut(u64) -> (u64, Vec<u8>);

fn raw(status: u16, extra: &[(&str, String)], body: &str) -> Vec<u8> {
    let mut s = format!("HTTP/1.1 {status} X\r\n");
    for (k, v) in extra {
        s.push_str(&format!("{k}: {v}\r\n"));
    }
    s.push_str(&format!("content-length: {}\r\n\r\n{body}", body.len()));
    s.into_bytes()
}

fn mock_server(params: Params) -> impl FnMut(u64) -> (u64, Vec<u8>) {
    let mut state = AppState::new();
    move |now_us| {
        assert!(state.meter.has_room());
        let r = state.handle(&params, now_us / 1000);
        let headers: Vec<(&str, String)> = r.headers.iter().map(|h| (h.0, h.1.clone())).collect();
        (r.decision.latency_ms * 1000 + 100, raw(r.decision.status, &headers, r.decision.body))
    }
}

/// The first `n_429` responses are rate-limited, the others healthy.
fn limiting_server(n_429: u64, retry_after: &'static str) -> impl FnMut(u64) -> (u64, Vec<u8>) {
    let mut seen = 0u64;
    move |_| {
        seen += 1;
        let mut h = vec![("content-type", "application/json".to_string())];
        if seen <= n_429 {
            h.push(("retry-after", retry_after.to_string()));
            (300, raw(429, &h, r#"{"status":"error","code":429}"#))
        } else {
            (300, raw(200, &h, r#"{"status":"ok"}"#))
        }
    }
}

enum Due {
    Event(usize, ConnEvent),
    Tick(u64),
    Stop,
}

/// Run `spec` to its end; `stop_at_us` aborts it.
fn simulate(spec: RunSpec, server: Server, stop_at_us: Option<u64>) -> (RunReport, Vec<Tick>) {
    assert!(spec.has_fitting_rate());
    let plan = RunPlan::new(&spec).expect("a plan");
    let rules = RunRules::new(&spec, &plan);
    let mut live = LiveRun::new();
    let mut emitter = TickEmitter::new(spec.duration_s);
    let mut ticks = Vec::new();
    let mut conns: Vec<Connection> =
        (0..plan.connections).map(|i| Connection::new(plan.conn_sched(i))).collect();
    let mut on_the_way: Vec<Option<(u64, Vec<u8>)>> = (0..conns.len()).map(|_| None).collect();
    let mut queue: BinaryHeap<Reverse<(u64, u64, usize)>> = BinaryHeap::new();
    let mut events: Vec<Option<Due>> = Vec::new();
    let mut order = 0u64;
    let mut at = |queue: &mut BinaryHeap<Reverse<(u64, u64, usize)>>,
                  events: &mut Vec<Option<Due>>,
                  t: u64,
                  due: Due| {
        events.push(Some(due));
        queue.push(Reverse((t, order, events.len() - 1)));
        order += 1;
    };
    for i in 0..conns.len() {
        at(&mut queue, &mut events, 0, Due::Event(i, ConnEvent::Clock));
    }
    for s in 1..=spec.duration_s {
        at(&mut queue, &mut events, s * 1_000_000, Due::Tick(s));
    }
    if let Some(t) = stop_at_us {
        at(&mut queue, &mut events, t, Due::Stop);
    }
    let mut end = 0;
    while let Some(Reverse((now, _, slot))) = queue.pop() {
        match events[slot].take().unwrap() {
            Due::Tick(s) => {
                if conns.iter().any(|c| c.phase != Phase::Done) || s * 1_000_000 <= end {
                    assert_eq!(emitter.next_due(), Some(s));
                    ticks.extend(emitter.emit(&mut live));
                }
            }
            Due::Stop => live.stop(),
            Due::Event(i, event) => {
                end = end.max(now);
                let c = &mut conns[i];
                assert!(c.is_ready(&live, now));
                match c.step(&rules, &mut live, now, event) {
                    ConnAction::Poll => at(&mut queue, &mut events, now, Due::Event(i, ConnEvent::Clock)),
                    ConnAction::Yield => {
                        at(&mut queue, &mut events, now + 1, Due::Event(i, ConnEvent::Clock))
                    }
                    ConnAction::Sleep { until_us } => {
                        at(&mut queue, &mut events, until_us, Due::Event(i, ConnEvent::Clock))
                    }
                    ConnAction::Send => {
                        let (latency, bytes) = server(now);
                        on_the_way[i] = Some((now + latency, bytes));
                        at(&mut queue, &mut events, now, Due::Event(i, ConnEvent::Written));
                    }
                    ConnAction::Receive { room, within_us } => match on_the_way[i].take() {
                        Some((t, bytes)) if t.saturating_sub(now) <= within_us => {
                            assert!(bytes.len() <= room);
                            at(&mut queue, &mut events, t.max(now), Due::Event(i, ConnEvent::Received(bytes)))
                        }
                        _ => at(&mut queue, &mut events, now + within_us, Due::Event(i, ConnEvent::ReadTimedOut)),
                    },
                    ConnAction::Finish => {}
                }
            }
        }
    }
    let results: Vec<ConnResult> = conns.iter().map(|c| c.result).collect();
    assert!(total_of(&results).is_some());
    // What the run counted live is what its connections counted.
    assert_eq!(total_of(&results).unwrap(), live.tally);
    (RunReport::close(spec, &results, live, end), ticks)
}

fn args(url: &str, rps: u64, duration_s: u64, connections: usize, timeout_s: u64) -> WorkerArgs {
    WorkerArgs {
        url: url.into(),
        method: "get".into(),
        rate: Rate::per_second(rps),
        duration_s,
        connections,
        timeout_s,
        no_keepalive: false,
        expected_status: vec![200],
        ramp: false,
        max_latency_ms: None,
        min_body_bytes: None,
        max_body_bytes: None,
        content_type: None,
        sample_every_n: 0,
        max_sampled_body_bytes: 0,
        rate_limit_action: "backoff".into(),
        max_backoff_ms: 5000,
    }
}

fn params(mode: Mode, cliff_rps: i64, base_latency_ms: u64) -> Params {
    Params { mode, cliff_rps, pct: 100, base_latency_ms }
}

#[test]
fn engine_hits_target_rps_against_healthy_mock() {
    let mut a = args("http://127.0.0.1:8080/api?mode=healthy&base_latency_ms=5", 200, 5, 20, 5);
    a.expected_status = vec![];
    let mut server = mock_server(params(Mode::Healthy, 100, 5));
    let (report, _) = simulate(a.to_spec().unwrap(), &mut server, None);
    assert!(
        report.completed >= 900 && report.completed <= 1050,
        "expected ~1000 completed, got {}",
        report.completed
    );
    let achieved = report.achieved_rps.milli_rps();
    assert!((180_000..220_000).contains(&achieved), "achieved rps off target: {achieved}");
    for q in [500, 950, 990] {
        let c = value_at_quantile(&report.histos.corrected, q);
        let u = value_at_quantile(&report.histos.uncorrected, q);
        assert!(c >= u, "corrected ({c}) < uncorrected ({u}) at q={q}");
    }
    assert_eq!(report.conn_errors, 0, "unexpected conn errors");
    assert_eq!(report.timeouts, 0, "unexpected timeouts");
    assert_eq!(report.pass, report.completed);
    assert_eq!(report.fail_status, 0);
}

#[test]
fn status_tier_assertion_catches_fast500() {
    let a = args("http://h/api", 200, 3, 10, 3);
    let mut server = mock_server(params(Mode::Fast500, 0, 1));
    let (report, _) = simulate(a.to_spec().unwrap(), &mut server, None);
    assert!(report.completed >= 500, "expected >= 500 completions, got {}", report.completed);
    assert_eq!(report.pass, 0, "no requests should pass against fast500 above cliff");
    assert_eq!(report.fail_status, report.completed);
}

#[test]
fn size_tier_assertion_catches_truncate() {
    let mut a = args("http://h/api", 200, 3, 10, 3);
    a.min_body_bytes = Some(44);
    let mut server = mock_server(params(Mode::Truncate, 0, 1));
    let (report, _) = simulate(a.to_spec().unwrap(), &mut server, None);
    assert!(report.completed >= 500, "got {} completions", report.completed);
    assert_eq!(report.fail_status, 0, "status was 200, no status fails");
    assert_eq!(report.fail_size, report.completed);
    assert_eq!(report.pass, 0);
}

#[test]
fn latency_tier_assertion_catches_slow_ok() {
    let mut a = args("http://h/api", 10, 4, 5, 5);
    a.max_latency_ms = Some(200);
    let mut server = mock_server(params(Mode::SlowOk, 0, 20));
    let (report, _) = simulate(a.to_spec().unwrap(), &mut server, None);
    assert!(report.completed >= 10, "got {} completions", report.completed);
    assert_eq!(report.fail_status, 0);
    assert_eq!(report.fail_size, 0);
    assert_eq!(report.fail_latency, report.completed);
    assert_eq!(report.pass, 0);
    assert!(report.uncorrected.p50_us >= SLOW_PENALTY_MS * 1000);
}

#[test]
fn offload_sampling_captures_bodies_at_the_configured_cadence() {
    let mut a = args("http://h/api", 200, 3, 10, 3);
    a.sample_every_n = 10;
    a.max_sampled_body_bytes = 4096;
    let mut server = mock_server(params(Mode::Healthy, 100, 5));
    let (report, ticks) = simulate(a.to_spec().unwrap(), &mut server, None);
    let sampled: Vec<_> = ticks.iter().flat_map(|t| t.sampled.iter()).collect();
    assert!(
        sampled.len() >= 40 && sampled.len() <= 80,
        "expected ~60 samples (200rps * 3s / 10), got {}",
        sampled.len()
    );
    assert!(sampled.len() as u64 <= report.completed / 10);
    for s in sampled {
        assert!(s.body.starts_with("{\"status\":\"ok\","), "sampled body looks wrong: {:?}", s.body);
        assert_eq!(s.body, HEALTHY_BODY);
        assert!(!s.body_truncated);
        assert_eq!((s.status, s.mrps_at_send), (200, 200_000));
    }
}

#[test]
fn sampled_bodies_are_cut_to_the_cap() {
    let mut a = args("http://h/api", 100, 1, 2, 3);
    a.sample_every_n = 1;
    a.max_sampled_body_bytes = 9;
    let mut server = mock_server(params(Mode::Healthy, 100, 1));
    let (_, ticks) = simulate(a.to_spec().unwrap(), &mut server, None);
    let first = &ticks[0].sampled[0];
    assert_eq!(first.body, "{\"status\"");
    assert!(first.body_truncated);
}

#[test]
fn http_429_is_rate_limited_not_fail_status() {
    let mut a = args("http://h/api", 200, 3, 10, 3);
    a.rate_limit_action = "Continue".into();
    let mut server = limiting_server(200, "0");
    let (report, _) = simulate(a.to_spec().unwrap(), &mut server, None);
    assert!(report.rate_limited >= 190, "expected ~200 rate_limited, got {}", report.rate_limited);
    assert_eq!(report.fail_status, 0, "429 leaked into fail_status");
    assert_eq!(report.fail_latency, 0, "429 leaked into fail_latency");
    assert_eq!(report.fail_size, 0, "429 leaked into fail_size");
    assert_eq!(report.fail_content_type, 0, "429 leaked into fail_content_type");
    let classified = report.pass
        + report.fail_status
        + report.fail_latency
        + report.fail_size
        + report.fail_content_type
        + report.rate_limited;
    assert_eq!(classified, report.completed);
    let denom = report.completed - report.rate_limited;
    assert!(denom > 0, "expected some non-429 responses");
    assert_eq!(report.pass, denom);
    assert_eq!(report.correctness_denominator(), denom);
    assert_eq!(report.first_429_mrps, Some(200_000));
}

#[test]
fn all_429_yields_zero_correctness_denominator_not_zero_passrate_failure() {
    let mut a = args("http://h/api", 200, 3, 10, 3);
    a.rate_limit_action = "continue".into();
    let mut server = limiting_server(u64::MAX, "0");
    let (report, _) = simulate(a.to_spec().unwrap(), &mut server, None);
    assert!(report.completed > 0, "should have completed some requests");
    assert_eq!(report.rate_limited, report.completed, "all responses were 429");
    assert_eq!(report.fail_status, 0, "no 429 may be scored as fail_status");
    assert_eq!(report.pass, 0);
    assert_eq!(report.completed - report.rate_limited, 0);
}

#[test]
fn rl_backoff_honors_retry_after_capped_and_keeps_coo_honest() {
    let mut a = args("http://h/api", 200, 3, 2, 3);
    a.max_backoff_ms = 50;
    let mut server = limiting_server(10, "1");
    let (report, _) = simulate(a.to_spec().unwrap(), &mut server, None);
    assert!(report.rate_limited >= 10, "expected the 429 band, got {}", report.rate_limited);
    assert_eq!(report.fail_status, 0, "429 must never be fail_status");
    assert_eq!(report.last_retry_after_ms, Some(1000));
    assert!(report.backoff_us_total > 0, "backoff should have accrued");
    assert!(report.backoff_us_total <= report.rate_limited * 50 * 1000);
    assert_eq!(report.backoff_us_total, 10 * 50 * 1000);
    assert!(report.corrected.p99_us < 500_000, "corrected p99 {} us", report.corrected.p99_us);
}

#[test]
fn rl_abort_stops_the_run_early() {
    let mut a = args("http://h/api", 200, 3, 10, 3);
    a.rate_limit_action = "abort".into();
    let mut server = limiting_server(u64::MAX, "0");
    let (report, _) = simulate(a.to_spec().unwrap(), &mut server, None);
    assert!(report.rate_limited >= 1, "should have seen at least one 429");
    assert!(
        report.completed < 200,
        "RL_ABORT should have stopped early, got {} completions",
        report.completed
    );
}

#[test]
fn a_ramp_offers_half_of_the_peak_on_average() {
    let mut a = args("http://h/api", 400, 4, 10, 3);
    a.ramp = true;
    a.rate_limit_action = "continue".into();
    let mut n = 0u64;
    let mut server = |_: u64| {
        n += 1;
        (200, raw(if n == 300 { 429 } else { 200 }, &[], "ok"))
    };
    let (report, _) = simulate(a.to_spec().unwrap(), &mut server, None);
    assert!(report.completed >= 750 && report.completed <= 810, "got {}", report.completed);
    // The 300th of 800 requests goes out about 61% into the ramp.
    let onset = report.first_429_mrps.unwrap();
    assert!((240_000..250_000).contains(&onset), "{onset}");
}

#[test]
fn errors_and_timeouts_end_a_connection() {
    let a = args("http://h/api", 100, 2, 2, 1);
    let mut server = |_: u64| (5_000_000, raw(200, &[], "late"));
    let (report, _) = simulate(a.to_spec().unwrap(), &mut server, None);
    assert_eq!((report.completed, report.timeouts, report.conn_errors), (0, 2, 0));
    let a = args("http://h/api", 100, 2, 2, 1);
    let mut server = |_: u64| (10, b"garbage\r\n\r\n".to_vec());
    let (report, _) = simulate(a.to_spec().unwrap(), &mut server, None);
    assert_eq!((report.completed, report.timeouts, report.conn_errors), (0, 0, 2));
    let a = args("http://h/api", 100, 2, 2, 1);
    let mut server = |_: u64| (10, vec![]);
    let (report, _) = simulate(a.to_spec().unwrap(), &mut server, None);
    assert_eq!((report.completed, report.timeouts, report.conn_errors), (0, 0, 2));
}

#[test]
fn ticks_add_up_to_the_run() {
    let a = args("http://h/api", 300, 4, 7, 3);
    let mut server = mock_server(params(Mode::WrongValue, 100, 2));
    let (report, ticks) = simulate(a.to_spec().unwrap(), &mut server, None);
    assert_eq!(ticks.len(), 4);
    let last = ticks.last().unwrap();
    assert_eq!(ticks.iter().map(|t| t.this_tick.total).sum::<u64>(), last.completed_total);
    assert!(report.completed - last.completed_total <= 7);
    for t in &ticks {
        assert_eq!(t.buckets.len(), 1);
        assert_eq!(t.buckets[0].rps_lo, t.achieved_rps_1s / 10 * 10);
        assert_eq!(t.buckets[0].rps_hi, t.buckets[0].rps_lo + 10);
        assert!(t.percentiles_so_far.p99_us >= t.percentiles_so_far.p50_us);
        assert!(!t.corrected_hist_v2.is_empty());
    }
}

#[test]
fn worker_node_runs_slice_against_healthy_mock() {
    let node = WorkerNodeService::new("test-worker".to_string());
    let assignment = Assignment {
        run_id: "00000000-0000-0000-0000-000000000001".into(),
        worker_id: "test-worker".into(),
        contract_version: "1.0.0".into(),
        target: Some(Target {
            url: "http://127.0.0.1:8080/api?mode=healthy&base_latency_ms=5".into(),
            method: 0,
            headers: vec![],
            body: vec![],
            timeout_ms: 5000,
            verify_tls: false,
        }),
        throughput: Rate::per_second(200),
        catch_up: Rate::per_second(400),
        load_model: 0,
        connections: 10,
        keepalive: true,
        epoch_unix_us: 1_000_000,
        duration_s: 3,
        warmup_s: 0,
        assertions: Some(AssertSpec {
            max_latency_us: None,
            min_body_bytes: None,
            max_body_bytes: None,
            content_type: None,
            expected_status: vec![200],
            sample_every_n: 0,
            ship_bodies: false,
            max_sampled_body_bytes: 0,
        }),
        rate_limit_policy: Some(RateLimitPolicy {
            action: RateLimitAction::RlBackoff.to_i32(),
            max_backoff_ms: 5000,
            record_onset: true,
        }),
    };
    let mut server = mock_server(params(Mode::Healthy, 100, 5));
    let (events, _) = run_slice(&node, &assignment, &mut server, None);
    let mut started = false;
    let mut partials = 0u32;
    let mut total_in_buckets = 0u64;
    let mut saw_final = false;
    for e in events {
        match e {
            WorkerEvent::Started(s) => {
                assert_eq!(s.skew_us, 500);
                started = true;
            }
            WorkerEvent::Partial(p) => {
                partials += 1;
                assert_eq!(p.tick, partials as u64);
                assert_eq!(p.worker_id, "test-worker");
                for b in &p.buckets {
                    total_in_buckets += b.total;
                }
                saw_final = p.is_final;
            }
        }
    }
    assert!(started, "no Started event observed");
    assert!(saw_final, "no final Partial observed");
    assert!(partials >= 2, "expected several Partials, got {partials}");
    assert!(
        total_in_buckets >= 400,
        "expected ~600 reqs across 3s @ 200rps, bucket total = {total_in_buckets}"
    );
}

/// All events of one slice.
fn run_slice(
    node: &WorkerNodeService,
    a: &Assignment,
    server: Server,
    stop_at_us: Option<u64>,
) -> (Vec<WorkerEvent>, u64) {
    let (spec, mut stream) = node.run_slice(a).expect("accepted");
    let mut events = vec![stream.started(a.epoch_unix_us + 500, a.epoch_unix_us)];
    let (report, ticks) = simulate(spec, server, stop_at_us);
    for t in &ticks {
        events.push(stream.tick(t));
    }
    events.push(stream.close());
    (events, report.elapsed_ms)
}

fn register(state: CoordinatorState, ids: &[&str]) -> CoordinatorState {
    let mut svc = CoordinatorService::new(state);
    for id in ids {
        let ack = svc.register(&introduction(id, &format!("{id}:9101"), 0), 1);
        assert!(ack.accepted);
    }
    svc.state
}

fn dispatch_spec(run_id: &str, rps: u64, duration_s: u64) -> DispatchSpec {
    DispatchSpec {
        run_id: run_id.into(),
        target_url: "http://127.0.0.1:8080/api?mode=healthy&base_latency_ms=5".into(),
        target_method: "GET".into(),
        target_rps: Rate::per_second(rps),
        duration_s,
        connections: 10,
        keepalive: true,
        timeout_ms: 5_000,
        expected_status: vec![200],
        max_latency_us: None,
        min_body_bytes: None,
        max_body_bytes: None,
        content_type: None,
        target_headers: vec![],
        epoch_unix_us: 0,
    }
}

/// A worker that dies after two reports of 50 requests each.
fn dying_events(worker_id: &str) -> Vec<WorkerEvent> {
    (1..=2u64)
        .map(|tick| {
            WorkerEvent::Partial(Partial {
                worker_id: worker_id.to_string(),
                tick,
                is_final: false,
                corrected_hist: vec![],
                uncorrected_hist: vec![],
                ttfb_hist: vec![],
                this_tick_corrected: vec![],
                buckets: vec![RpsBucket {
                    rps_lo: 0,
                    rps_hi: 10,
                    total: 50,
                    pass: 50,
                    fail_transport: 0,
                    fail_status: 0,
                    fail_latency: 0,
                    fail_size: 0,
                    fail_content_type: 0,
                    rate_limited: 0,
                    timeout: 0,
                }],
                offered_rps: 50,
                achieved_rps: 50,
                sched_slip_us: 0,
                client_saturated: false,
                in_flight: 0,
                conn_errors: 0,
                timeouts: 0,
                rate_limit: None,
                bytes_sent: 0,
                bytes_recv: 0,
                sampled: vec![],
            })
        })
        .collect()
}

/// Dispatch to every registered worker; the ones named in `dying` die mid-run.
fn dispatch(
    state: &mut CoordinatorState,
    spec: &DispatchSpec,
    dying: &[&str],
    abort_at_us: Option<u64>,
) -> (DispatchSummary, Vec<AggregatedTick>) {
    let (summary, ticks, _) = timed_dispatch(state, spec, dying, abort_at_us);
    (summary, ticks)
}

/// The same, with the time that the slowest worker took, in milliseconds.
fn timed_dispatch(
    state: &mut CoordinatorState,
    spec: &DispatchSpec,
    dying: &[&str],
    abort_at_us: Option<u64>,
) -> (DispatchSummary, Vec<AggregatedTick>, u64) {
    assert!(spec.has_fitting_rate(state.worker_count()));
    let slices = plan_dispatch(state, spec, 7_000_000).expect("workers");
    assert!(state.is_run_active(&spec.run_id));
    let mut server = mock_server(params(Mode::Healthy, 100, 5));
    let mut agg = TickAggregator::new(slices.len());
    let mut ticks = Vec::new();
    let mut results = Vec::new();
    let mut slowest_ms = 0;
    if abort_at_us.is_some() {
        assert!(state.abort_run(&spec.run_id), "abort_run should find the in-flight run");
        let calls = state.abort_calls(&spec.run_id);
        assert_eq!(calls.len(), slices.len());
    }
    for s in &slices {
        assert_eq!(s.url, format!("http://{}:9101", s.worker_id));
        let events = if dying.contains(&s.worker_id.as_str()) {
            dying_events(&s.worker_id)
        } else {
            let node = WorkerNodeService::new(s.worker_id.clone());
            let (events, elapsed_ms) = run_slice(&node, &s.assignment, &mut server, abort_at_us);
            slowest_ms = slowest_ms.max(elapsed_ms);
            events
        };
        let mut sum = WorkerSummary::new();
        for e in events {
            if let WorkerEvent::Partial(p) = e {
                assert!(sum.observe(&p));
                if let Some(t) = agg.observe(s.worker_id.clone(), p).expect("counts fit") {
                    ticks.push(t);
                }
            }
        }
        results.push(Some(sum));
    }
    let summary = close_dispatch(state, &spec.run_id, &results).expect("counts fit");
    assert!(!state.is_run_active(&spec.run_id));
    (summary, ticks, slowest_ms)
}

#[test]
fn dispatch_aggregates_across_two_workers() {
    let mut state = register(CoordinatorState::new(), &["worker-a", "worker-b"]);
    let spec = dispatch_spec("test-run", 400, 3);
    let (summary, _) = dispatch(&mut state, &spec, &[], None);
    assert_eq!(summary.workers_dispatched, 2);
    assert_eq!(summary.workers_finished, 2, "both workers should have finished");
    assert!(
        summary.total_completed >= 800 && summary.total_completed <= 1400,
        "expected ~1200 completed across workers, got {}",
        summary.total_completed
    );
    assert_eq!(summary.total_pass, summary.total_completed);
    assert_eq!(summary.total_fail_status, 0);
    assert!(summary.warnings.is_empty());
}

#[test]
fn dispatch_merges_hdr_snapshots_across_workers() {
    let mut state = register(CoordinatorState::new(), &["worker-a", "worker-b"]);
    let spec = dispatch_spec("test-run-hdr", 400, 3);
    let (summary, ticks) = dispatch(&mut state, &spec, &[], None);
    assert_eq!(summary.workers_finished, 2, "both workers should have finished");
    assert!(!ticks.is_empty(), "should have received at least one aggregated tick");
    let with_percentiles: Vec<_> = ticks
        .iter()
        .filter(|t| t.percentiles_so_far.p50_us > 0 && t.percentiles_so_far.p99_us > 0)
        .collect();
    assert!(!with_percentiles.is_empty());
    let last = with_percentiles.last().unwrap();
    assert!(
        last.percentiles_so_far.p50_us >= 1_000 && last.percentiles_so_far.p50_us <= 200_000,
        "merged p50 out of sane band: {} us",
        last.percentiles_so_far.p50_us
    );
    assert!(last.percentiles_so_far.p99_us >= last.percentiles_so_far.p50_us);
    let totals: u64 = ticks.iter().map(|t| t.this_tick.total).sum();
    assert_eq!(totals, ticks.last().unwrap().completed_total);
}

#[test]
fn dispatch_gate3_half_plus_half_equals_full() {
    let spec = |run_id: &str| {
        let mut spec = dispatch_spec(run_id, 600, 10);
        spec.connections = 20;
        spec
    };
    let mut one = register(CoordinatorState::new(), &["A-w0"]);
    let (sum_a, ticks_a) = dispatch(&mut one, &spec("gate3-A"), &[], None);
    let mut two = register(CoordinatorState::new(), &["B-w0", "B-w1"]);
    let (sum_b, ticks_b) = dispatch(&mut two, &spec("gate3-B"), &[], None);
    let delta = |a: u64, b: u64| (b as f64 - a as f64).abs() / a as f64 * 100.0;
    let a = &ticks_a.last().unwrap().percentiles_so_far;
    let b = &ticks_b.last().unwrap().percentiles_so_far;
    assert!(delta(sum_a.total_completed, sum_b.total_completed) <= 5.0);
    assert!(delta(a.p50_us, b.p50_us) <= 8.0);
    assert!(delta(a.p95_us, b.p95_us) <= 8.0);
    assert!(delta(a.p99_us, b.p99_us) <= 8.0);
}

#[test]
fn abort_stops_the_fleet_early() {
    let mut state = register(CoordinatorState::new(), &["worker-a", "worker-b"]);
    let (baseline, _) = dispatch(&mut state, &dispatch_spec("baseline", 400, 3), &[], None);
    assert!(!baseline.aborted, "baseline must not be flagged aborted");
    assert_eq!(baseline.workers_finished, 2);
    assert!(
        baseline.total_completed > 600,
        "baseline should complete a healthy count over 3s, got {}",
        baseline.total_completed
    );
    let (summary, _, slowest_ms) =
        timed_dispatch(&mut state, &dispatch_spec("abort-me", 400, 10), &[], Some(1_000_000));
    assert!(summary.aborted, "summary must be flagged aborted");
    assert!(
        slowest_ms < 5_000,
        "dispatch should wind down quickly after abort, took {} ms",
        slowest_ms
    );
    assert_eq!(summary.workers_finished, 2, "both workers must emit a final Partial after draining");
    assert!(summary.total_completed < baseline.total_completed);
    assert!(!state.is_run_active("abort-me"), "run should be deregistered after dispatch returns");
}

#[test]
fn midrun_worker_death_yields_warning_and_completes_with_survivor() {
    let mut state = register(CoordinatorState::new(), &["worker-a", "worker-b"]);
    let spec = dispatch_spec("die-run", 400, 4);
    let (summary, ticks) = dispatch(&mut state, &spec, &["worker-b"], None);
    assert!(!summary.aborted, "a worker death must NOT flag the run aborted");
    assert_eq!(summary.workers_dispatched, 2);
    assert_eq!(summary.workers_finished, 1, "only the survivor emits a final Partial");
    assert_eq!(summary.workers_lost, 1, "the dead worker must be counted lost");
    let lost: Vec<_> = summary.warnings.iter().filter(|w| w.code == "WORKER_LOST").collect();
    assert_eq!(lost.len(), 1, "expected one WORKER_LOST warning, got {:?}", summary.warnings);
    assert!(lost[0].message.contains("ran 1 of 2 workers"), "{:?}", lost[0].message);
    assert!(summary.total_completed > 100);
    // Ticks past the dead worker's last report never go out.
    assert_eq!(ticks.len(), 2);
    assert!(ticks.iter().all(|t| t.this_tick.total > 50));
}

#[test]
fn admin_runs_endpoint_dispatches_and_returns_summary() {
    let mut state = register(CoordinatorState::new(), &["worker-x"]);
    let spec = dispatch_spec("00000000-0000-0000-0000-000000000001", 200, 3);
    let (summary, ticks) = dispatch(&mut state, &spec, &[], None);
    let mut finals = FinalsAcc::new();
    for t in &ticks {
        assert!(finals.observe(t));
    }
    let f = finalize(&finals, &summary);
    assert_eq!(f.status, "completed");
    assert_eq!(f.cliff_rps, None);
    assert_eq!(f.total_requests as u64, summary.total_completed);
    assert!(f.p50_us > 0 && f.p50_us <= f.p95_us && f.p95_us <= f.p99_us && f.p999_us == f.p99_us);
    assert!(!f.corrected_hist_b64.is_empty() && !f.uncorrected_hist_b64.is_empty());
    let r = to_response(spec.run_id.clone(), &summary);
    assert_eq!(r.workers_finished, 1);
    assert!(r.total_completed >= 400 && r.total_completed <= 700, "got {}", r.total_completed);
    assert_eq!(r.total_pass, r.total_completed);
    assert_eq!(r.total_fail_status, 0);
    let workers = state.list_workers();
    assert_eq!(workers.len(), 1);
    assert_eq!(workers[0].worker_id, "worker-x");
}

#[test]
fn the_policy_names_are_read_in_any_case() {
    let mut a = args("http://h/", 1, 1, 1, 1);
    for (name, action) in [
        ("CONTINUE", RlAction::Continue),
        ("Abort", RlAction::Abort),
        ("backoff", RlAction::Backoff),
        ("whatever", RlAction::Backoff),
    ] {
        a.rate_limit_action = name.into();
        assert_eq!(a.to_spec().unwrap().rate_limit_action, action);
    }
}

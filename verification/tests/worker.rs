use correctness_bench::cliff::{observe_buckets, BucketAccum, BucketCounts};
use correctness_bench::connection::{
    ConnAction, ConnEvent, Connection, Health, LiveRun, Phase, RateLimitSignal, RunRules,
};
use correctness_bench::launch::{
    advertised_address, expected_label, finalize, finalize_url, introduction, tick_url, ArgsError,
    RegisterRetry, RetryStep, WorkerArgs,
};
use correctness_bench::proto::{
    AbortRequest, AssertSpec, Assignment, HttpMethod, RateLimitAction, RateLimitPolicy, Target,
};
use correctness_bench::rate::Rate;
use correctness_bench::run::{Bucket, RunReport, TickEmitter};
use correctness_bench::sched::{ConnSched, RateSchedule};
use correctness_bench::tally::{Tally, Verdict};
use correctness_bench::worker::{InlineAssert, RlAction, RunError, RunPlan, RunSpec};
use correctness_bench::worker_node::{
    build_run_spec, empty_final_partial, http_method_from_proto, partial_from_tick,
    WorkerNodeService,
};

fn args(url: &str) -> WorkerArgs {
    WorkerArgs {
        url: url.into(),
        method: "GET".into(),
        rate: Rate::per_second(100),
        duration_s: 10,
        connections: 4,
        timeout_s: 30,
        no_keepalive: false,
        expected_status: vec![],
        ramp: false,
        max_latency_ms: None,
        min_body_bytes: None,
        max_body_bytes: None,
        content_type: None,
        sample_every_n: 0,
        max_sampled_body_bytes: 8192,
        rate_limit_action: "backoff".into(),
        max_backoff_ms: 5000,
    }
}

fn spec(url: &str) -> RunSpec {
    args(url).to_spec().expect("arguments describe a run")
}

#[test]
fn tiers_are_judged_in_order() {
    let mut a = args("http://h/");
    a.max_latency_ms = Some(1);
    a.min_body_bytes = Some(10);
    a.max_body_bytes = Some(20);
    a.content_type = Some("Application/JSON".into());
    let rules = InlineAssert::from_spec(&a.to_spec().unwrap());
    let json = Some("application/json; charset=utf-8");
    assert_eq!(rules.classify(200, 1000, 10, json), Verdict::Pass);
    assert_eq!(rules.classify(299, 1000, 20, json), Verdict::Pass);
    assert_eq!(rules.classify(300, 9999, 0, None), Verdict::FailStatus);
    assert_eq!(rules.classify(199, 1, 15, json), Verdict::FailStatus);
    assert_eq!(rules.classify(200, 1001, 0, None), Verdict::FailLatency);
    assert_eq!(rules.classify(200, 1000, 9, None), Verdict::FailSize);
    assert_eq!(rules.classify(200, 1000, 21, None), Verdict::FailSize);
    assert_eq!(rules.classify(200, 1000, 15, None), Verdict::FailContentType);
    assert_eq!(rules.classify(200, 1000, 15, Some("text/plain")), Verdict::FailContentType);
    assert_eq!(rules.classify(429, 9999, 0, None), Verdict::RateLimited);
}

#[test]
fn a_429_is_rate_limited_even_where_it_is_expected() {
    let mut a = args("http://h/");
    a.expected_status = vec![429, 204];
    let rules = InlineAssert::from_spec(&a.to_spec().unwrap());
    assert_eq!(rules.classify(429, 1, 0, None), Verdict::RateLimited);
    assert_eq!(rules.classify(204, 1, 0, None), Verdict::Pass);
    assert_eq!(rules.classify(200, 1, 0, None), Verdict::FailStatus);
}

#[test]
fn plans() {
    let s = spec("http://h:8080/api?x=1");
    let p = RunPlan::new(&s).unwrap();
    assert_eq!((p.host.as_str(), p.port, p.connections), ("h", 8080, 4));
    assert!(p.request.starts_with(b"GET /api?x=1 HTTP/1.1\r\nHost: h:8080\r\n"));
    // 100 rps over 4 connections: 40 ms each, staggered by 10 ms.
    assert_eq!(
        p.schedule,
        RateSchedule::Constant { throughput_us: Rate { requests: 100, per_us: 4_000_000 } }
    );
    assert_eq!(p.stagger_us, 10_000);
    let starts: Vec<u64> = (0..4).map(|i| p.conn_sched(i).thread_start_us).collect();
    assert_eq!(starts, vec![0, 10_000, 20_000, 30_000]);
    assert_eq!(p.duration_us, 10_000_000);
    let p = RunPlan::new(&spec("http://h")).unwrap();
    assert_eq!(p.port, 80);
    assert!(p.request.starts_with(b"GET / HTTP/1.1\r\nHost: h\r\n"));
}

#[test]
fn ramps_are_planned_from_the_peak() {
    let mut a = args("http://h/");
    a.ramp = true;
    let p = RunPlan::new(&a.to_spec().unwrap()).unwrap();
    assert_eq!(
        p.schedule,
        RateSchedule::Ramp {
            duration_us: 10_000_000,
            peak_throughput_us: Rate { requests: 100, per_us: 4_000_000 },
        }
    );
    assert_eq!(p.conn_sched(1).catch_up_us, Rate { requests: 0, per_us: 1 });
}

#[test]
fn runs_that_cannot_start() {
    assert_eq!(RunPlan::new(&spec("/only/a/path")).err(), Some(RunError::MissingHost));
    assert_eq!(RunPlan::new(&spec("https://h/")).err(), Some(RunError::SchemeNotHttp));
    assert_eq!(RunError::MissingHost.message(), "URL missing host");
    assert_eq!(RunError::SchemeNotHttp.message(), "only http:// supported in this MVP");
    let mut s = spec("http://h/");
    assert!(s.has_fitting_rate());
    s.target_rps = Rate { requests: u64::MAX, per_us: 1 };
    assert!(!s.has_fitting_rate());
    s.target_rps = Rate { requests: 1, per_us: u64::MAX };
    assert!(!s.has_fitting_rate());
}

#[test]
fn bad_arguments() {
    assert!(matches!(args("http://h h/").to_spec(), Err(ArgsError::BadUrl(_))));
    let mut a = args("http://h/");
    a.method = "GE T".into();
    assert!(matches!(a.to_spec(), Err(ArgsError::BadMethod)));
    a.method = "".into();
    assert!(matches!(a.to_spec(), Err(ArgsError::BadMethod)));
    a.method = "purge".into();
    assert_eq!(a.to_spec().unwrap().method, "PURGE");
    a.timeout_s = u64::MAX;
    assert_eq!(a.to_spec().unwrap().timeout_us, u64::MAX);
}

fn assignment() -> Assignment {
    Assignment {
        run_id: "r".into(),
        worker_id: "w".into(),
        contract_version: "1.0.0".into(),
        target: Some(Target {
            url: "http://h:81/p".into(),
            method: HttpMethod::Put.to_i32(),
            headers: vec![],
            body: vec![],
            timeout_ms: 0,
            verify_tls: true,
        }),
        throughput: Rate::per_second(7),
        catch_up: Rate::per_second(14),
        load_model: 0,
        connections: 0,
        keepalive: true,
        epoch_unix_us: 0,
        duration_s: -4,
        warmup_s: 0,
        assertions: None,
        rate_limit_policy: None,
    }
}

#[test]
fn assignments_become_runs() {
    let s = build_run_spec(&assignment()).unwrap();
    assert_eq!((s.method.as_str(), s.url.port), ("PUT", Some(81)));
    assert_eq!(s.url.host.as_deref(), Some("h"));
    assert_eq!(s.url.scheme.as_deref(), Some("http"));
    assert_eq!(s.url.path_and_query.as_deref(), Some("/p"));
    assert_eq!((s.duration_s, s.connections, s.timeout_us), (0, 1, 30_000_000));
    assert_eq!((s.rate_limit_action, s.max_backoff_ms, s.record_onset), (RlAction::Backoff, 5000, true));
    assert!(s.expected_status.is_empty() && s.max_latency_us.is_none());
    let mut a = assignment();
    a.duration_s = 3;
    a.connections = 9;
    a.target.as_mut().unwrap().timeout_ms = 250;
    a.assertions = Some(AssertSpec {
        max_latency_us: Some(-1),
        min_body_bytes: Some(2),
        max_body_bytes: Some(-1),
        content_type: Some("T".into()),
        expected_status: vec![200, 65_736, -1],
        sample_every_n: 5,
        ship_bodies: true,
        max_sampled_body_bytes: 6,
    });
    a.rate_limit_policy =
        Some(RateLimitPolicy { action: 0, max_backoff_ms: 70, record_onset: false });
    let s = build_run_spec(&a).unwrap();
    assert_eq!((s.duration_s, s.connections, s.timeout_us), (3, 9, 250_000));
    assert_eq!(s.expected_status, vec![200, 200, 65_535]);
    assert_eq!(s.max_latency_us, Some(u64::MAX));
    assert_eq!((s.min_body_bytes, s.max_body_bytes), (Some(2), Some(u64::MAX)));
    assert_eq!(s.content_type.as_deref(), Some("T"));
    assert_eq!((s.sample_every_n, s.ramp), (0, false));
    assert_eq!((s.rate_limit_action, s.max_backoff_ms, s.record_onset), (RlAction::Continue, 70, false));
    a.rate_limit_policy =
        Some(RateLimitPolicy { action: 2, max_backoff_ms: 0, record_onset: true });
    let s = build_run_spec(&a).unwrap();
    assert_eq!((s.rate_limit_action, s.max_backoff_ms), (RlAction::Abort, 5000));
    a.rate_limit_policy =
        Some(RateLimitPolicy { action: 99, max_backoff_ms: 1, record_onset: true });
    assert_eq!(build_run_spec(&a).unwrap().rate_limit_action, RlAction::Backoff);
}

#[test]
fn assignments_are_refused() {
    let mut a = assignment();
    a.target.as_mut().unwrap().url = "http://a b/".into();
    let e = build_run_spec(&a).unwrap_err();
    assert!(e.starts_with("bad target.url: ") && e.len() > 16, "{e}");
    a.target = None;
    assert_eq!(build_run_spec(&a).unwrap_err(), "Assignment.target required");
    let node = WorkerNodeService::new("w".into());
    assert_eq!(node.run_slice(&a).unwrap_err(), "Assignment.target required");
    assert_eq!(node.register().message(), "Register lives on the coordinator");
    assert_eq!(node.heartbeat().message(), "Heartbeat lives on the coordinator");
    let req = AbortRequest { run_id: "r".into(), worker_id: "".into(), reason: "x".into() };
    assert!(node.abort(&req).accepted);
}

#[test]
fn numbers_in_messages() {
    for (n, name) in [(0, "GET"), (1, "POST"), (2, "PUT"), (3, "PATCH"), (4, "DELETE"), (5, "HEAD"), (6, "GET"), (-1, "GET")] {
        assert_eq!(http_method_from_proto(n), name);
    }
    for n in 0..6 {
        assert_eq!(HttpMethod::from_i32(n).unwrap().to_i32(), n);
    }
    assert!(HttpMethod::from_i32(6).is_none());
    for n in 0..3 {
        assert_eq!(RateLimitAction::from_i32(n).unwrap().to_i32(), n);
    }
    assert!(RateLimitAction::from_i32(-1).is_none());
    let p = empty_final_partial("w", 8);
    assert!(p.is_final && p.buckets.is_empty() && p.rate_limit.is_none());
    assert_eq!((p.worker_id.as_str(), p.tick), ("w", 8));
}

fn machine(a: &WorkerArgs) -> (Connection, RunRules, LiveRun) {
    let s = a.to_spec().unwrap();
    let plan = RunPlan::new(&s).unwrap();
    (Connection::new(plan.conn_sched(0)), RunRules::new(&s, &plan), LiveRun::new())
}

fn response(head: &str, body: &str) -> ConnEvent {
    let s = format!("HTTP/1.1 {head}\r\ncontent-length: {}\r\n\r\n{body}", body.len());
    ConnEvent::Received(s.into_bytes())
}

#[test]
fn one_request_step_by_step() {
    let a = args("http://h/");
    let (mut c, rules, mut live) = machine(&a);
    assert_eq!(c.step(&rules, &mut live, 40, ConnEvent::Clock), ConnAction::Send);
    assert_eq!(c.phase, Phase::Writing { intended_us: 0, sent_us: 40 });
    assert_eq!(
        c.step(&rules, &mut live, 50, ConnEvent::Written),
        ConnAction::Receive { room: 65_536, within_us: 30_000_000 }
    );
    assert_eq!(
        c.step(&rules, &mut live, 60, ConnEvent::Received(b"HTTP/1.1 200 OK\r\n".to_vec())),
        ConnAction::Receive { room: 65_519, within_us: 29_999_990 }
    );
    let rest = ConnEvent::Received(b"content-length: 2\r\n\r\nhi".to_vec());
    assert_eq!(c.step(&rules, &mut live, 140, rest), ConnAction::Poll);
    assert_eq!((c.result.tally.total, c.result.tally.pass, live.tally.pass), (1, 1, 1));
    assert_eq!(c.sched.complete, 1);
    // 40 ms to the next slot: sleep to within the spinning distance, then spin.
    assert_eq!(
        c.step(&rules, &mut live, 1_000, ConnEvent::Clock),
        ConnAction::Sleep { until_us: 39_900 }
    );
    assert_eq!(c.step(&rules, &mut live, 39_950, ConnEvent::Clock), ConnAction::Yield);
    assert_eq!(c.step(&rules, &mut live, 40_000, ConnEvent::Clock), ConnAction::Send);
    assert_eq!(c.step(&rules, &mut live, 40_010, ConnEvent::WriteFailed), ConnAction::Finish);
    assert_eq!((c.phase, c.result.conn_errors), (Phase::Done, 1));
    let r = RunReport::close(a.to_spec().unwrap(), &vec![c.result], live, 50_000);
    assert_eq!((r.completed, r.conn_errors, r.elapsed_ms), (1, 1, 50));
    // 140 us from the slot, 100 us from the sending.
    assert_eq!((r.corrected.max_us, r.uncorrected.max_us), (140, 100));
    assert_eq!(r.achieved_rps, Rate { requests: 1, per_us: 50_000 });
}

#[test]
fn waiting_is_short_or_long() {
    let a = args("http://h/");
    let (mut c, rules, mut live) = machine(&a);
    c.sched.complete = 0;
    c.sched.thread_start_us = 60;
    assert_eq!(c.step(&rules, &mut live, 0, ConnEvent::Clock), ConnAction::Yield);
    assert_eq!(c.phase, Phase::Waiting { due_us: 60 });
    // The run ends while the connection waits.
    assert_eq!(c.step(&rules, &mut live, 10_000_000, ConnEvent::Clock), ConnAction::Finish);
    assert_eq!(c.phase, Phase::Done);
}

#[test]
fn a_rate_limit_response_pauses_the_schedule() {
    let mut a = args("http://h/");
    a.max_backoff_ms = 700;
    let (mut c, rules, mut live) = machine(&a);
    c.step(&rules, &mut live, 0, ConnEvent::Clock);
    c.step(&rules, &mut live, 0, ConnEvent::Written);
    let action = c.step(&rules, &mut live, 500, response("429 X\r\nretry-after: 2", ""));
    assert_eq!(action, ConnAction::Sleep { until_us: 700_500 });
    assert_eq!(c.sched.thread_start_us, 700_000);
    assert_eq!(
        live.signal,
        RateLimitSignal {
            first_429_mrps: Some(100_000),
            last_retry_after_ms: Some(2000),
            backoff_us_total: 700_000,
        }
    );
    assert_eq!((live.tally.rate_limited, live.tally.fail_status), (1, 0));
    // The next slot is the next one of the shifted schedule.
    assert_eq!(
        c.step(&rules, &mut live, 700_500, ConnEvent::Clock),
        ConnAction::Sleep { until_us: 739_900 }
    );
}

#[test]
fn without_retry_after_there_is_no_pause() {
    let (mut c, rules, mut live) = machine(&args("http://h/"));
    c.step(&rules, &mut live, 0, ConnEvent::Clock);
    c.step(&rules, &mut live, 0, ConnEvent::Written);
    assert_eq!(c.step(&rules, &mut live, 9, response("429 X", "")), ConnAction::Poll);
    assert_eq!((live.signal.last_retry_after_ms, live.signal.backoff_us_total), (None, 0));
}

#[test]
fn stopping_closes_the_connection() {
    let (mut c, rules, mut live) = machine(&args("http://h/"));
    live.stop();
    assert!(c.is_ready(&live, 0));
    assert_eq!(c.step(&rules, &mut live, 0, ConnEvent::Clock), ConnAction::Finish);
    // A connection in the middle of a wait closes too.
    let (mut c, rules, mut live) = machine(&args("http://h/"));
    c.sched.thread_start_us = 5_000_000;
    let action = c.step(&rules, &mut live, 0, ConnEvent::Clock);
    assert_eq!(action, ConnAction::Sleep { until_us: 4_999_900 });
    live.stop();
    assert_eq!(c.step(&rules, &mut live, 7, ConnEvent::Clock), ConnAction::Finish);
    let unopened = Connection::unopened(c.sched, &mut live);
    assert_eq!((unopened.result.conn_errors, unopened.phase), (1, Phase::Done));
    assert_eq!((live.health.conn_errors, live.health.timeouts), (1, 0));
}

#[test]
fn pipelined_responses_are_not_lost() {
    let (mut c, rules, mut live) = machine(&args("http://h/"));
    c.step(&rules, &mut live, 0, ConnEvent::Clock);
    c.step(&rules, &mut live, 0, ConnEvent::Written);
    let two = "HTTP/1.1 200 A\r\n\r\nHTTP/1.1 500 B\r\n\r\n";
    let action = c.step(&rules, &mut live, 5, ConnEvent::Received(two.as_bytes().to_vec()));
    assert_eq!(action, ConnAction::Poll);
    assert_eq!(c.step(&rules, &mut live, 40_000, ConnEvent::Clock), ConnAction::Send);
    assert_eq!(c.step(&rules, &mut live, 40_001, ConnEvent::Written), ConnAction::Poll);
    assert_eq!((live.tally.pass, live.tally.fail_status), (1, 1));
}

#[test]
fn tallies() {
    let mut t = Tally::zero();
    for v in [
        Verdict::Pass,
        Verdict::FailStatus,
        Verdict::FailLatency,
        Verdict::FailSize,
        Verdict::FailContentType,
        Verdict::RateLimited,
    ] {
        t.record(v);
    }
    assert_eq!((t.total, t.denominator()), (6, 5));
    let mut u = t;
    assert!(u.can_absorb(&t));
    u.absorb(&t);
    assert_eq!(u.since(&t), t);
    assert_eq!(t.since(&u), Tally::zero());
    u.pass = u64::MAX;
    assert!(!u.can_absorb(&t));
}

#[test]
fn final_figures_of_a_run() {
    let a = args("http://h/");
    let (mut c, rules, mut live) = machine(&a);
    c.step(&rules, &mut live, 0, ConnEvent::Clock);
    c.step(&rules, &mut live, 0, ConnEvent::Written);
    c.step(&rules, &mut live, 300, response("200 OK", "x"));
    let r = RunReport::close(a.to_spec().unwrap(), &vec![c.result], live, 1_000_000);
    let mut accum = BucketAccum::new();
    let mut b = Bucket::from_tally(47, &c.result.tally);
    b.total = 40;
    b.pass = 20;
    assert!(observe_buckets(&mut accum, &vec![b]));
    let f = finalize(&r, &accum);
    assert_eq!(f.effective_rps, Rate::per_second(1));
    assert_eq!((f.p50_us, f.p999_us, f.total_requests, f.total_pass), (300, 300, 1, 1));
    assert_eq!(f.cliff_rps, Some(45));
    assert_eq!((f.status.as_str(), f.rate_limited, f.backoff_us_total), ("completed", 0, 0));
    assert_eq!(f.rate_limit_onset_mrps, None);
    assert!(f.corrected_hist_b64.len() % 4 == 0 && !f.corrected_hist_b64.is_empty());
    let full = BucketCounts { rps_lo: 40, rps_hi: 50, total: u64::MAX, pass: 0, rate_limited: 0 };
    assert!(!accum.can_add(&full));
    assert!(!accum.accumulate(&vec![full]));
    assert_eq!(accum.detect_cliff_rps(95, 30), Some(45));
    assert_eq!(accum.detect_cliff_rps(50, 30), None);
}

#[test]
fn labels_and_addresses() {
    assert_eq!(expected_label(&vec![]), "any 2xx");
    assert_eq!(expected_label(&vec![200]), "200");
    assert_eq!(expected_label(&vec![200, 204, 301]), "200,204,301");
    assert_eq!(tick_url("http://c:8000/", "r"), "http://c:8000/v1/_internal/runs/r/tick");
    assert_eq!(finalize_url("http://c:8000", "r"), "http://c:8000/v1/_internal/runs/r/finalize");
    let at = |a: Option<&str>, un: bool, h: Option<&str>| {
        advertised_address(a.map(String::from), un, h.map(String::from), "10.0.0.1:9091", 9091)
    };
    assert_eq!(at(Some("x:1"), true, None), "x:1");
    assert_eq!(at(None, true, Some("box")), "box:9091");
    assert_eq!(at(None, true, None), "127.0.0.1:9091");
    assert_eq!(at(None, false, Some("box")), "10.0.0.1:9091");
    let i = introduction("w", "a:1", 3);
    assert_eq!((i.worker_id.as_str(), i.contract_version.as_str(), i.max_rps), ("w", "1.0.0", 3));
}

#[test]
fn registering_is_retried_with_growing_waits() {
    let mut r = RegisterRetry::new();
    let mut waits = Vec::new();
    loop {
        match r.failed() {
            RetryStep::RetryAfter { delay_ms } => waits.push(delay_ms),
            RetryStep::GiveUp { attempts } => {
                assert_eq!(attempts, 30);
                break;
            }
        }
    }
    assert_eq!(waits.len(), 29);
    assert_eq!(waits[..7], [200, 400, 800, 1600, 3200, 5000, 5000]);
}

#[test]
fn ticks_are_numbered_and_end_with_the_run() {
    let mut live = LiveRun::new();
    let mut emitter = TickEmitter::new(3);
    let mut totals = Vec::new();
    while let Some(due) = emitter.next_due() {
        for _ in 0..due {
            live.tally.total += 1;
            live.tally.pass += 1;
            live.histos.record(10 * due, due);
        }
        let tick = emitter.emit(&mut live).unwrap();
        assert_eq!(tick.elapsed_s, due);
        assert_eq!((tick.this_tick.total, tick.achieved_rps_1s), (due, due));
        totals.push((tick.elapsed_s, tick.completed_total, tick.pass_total));
    }
    assert_eq!(totals, [(1, 1, 1), (2, 3, 3), (3, 6, 6)]);
    assert!(emitter.emit(&mut live).is_none());
    assert_eq!(emitter.sent, 3);
    assert!(TickEmitter::new(0).emit(&mut live).is_none());
}

#[test]
fn a_worker_reports_its_own_slips_and_failures() {
    // 25 requests per second on the connection: a slot every 40 ms.
    let (mut c, rules, mut live) = machine(&args("http://h/"));
    let mut emitter = TickEmitter::new(3);
    // The first request goes out at once, the second one 300 us late.
    c.step(&rules, &mut live, 0, ConnEvent::Clock);
    c.step(&rules, &mut live, 0, ConnEvent::Written);
    c.step(&rules, &mut live, 500, response("200 OK", "x"));
    assert_eq!(live.health, Health::new());
    c.step(&rules, &mut live, 1_000, ConnEvent::Clock);
    assert_eq!(c.step(&rules, &mut live, 40_300, ConnEvent::Clock), ConnAction::Send);
    c.step(&rules, &mut live, 40_300, ConnEvent::Written);
    c.step(&rules, &mut live, 40_900, response("200 OK", "x"));
    let tick = emitter.emit(&mut live).unwrap();
    assert_eq!((tick.health.sched_slip_us, tick.health.client_saturated), (300, false));
    assert_eq!(live.health, Health::new());
    // The third goes out a whole slot late, and is never answered.
    c.step(&rules, &mut live, 41_000, ConnEvent::Clock);
    assert_eq!(c.step(&rules, &mut live, 120_000, ConnEvent::Clock), ConnAction::Send);
    c.step(&rules, &mut live, 120_000, ConnEvent::Written);
    c.step(&rules, &mut live, 30_120_000, ConnEvent::ReadTimedOut);
    Connection::unopened(ConnSched::new(0, Rate::per_second(25)), &mut live);
    let tick = emitter.emit(&mut live).unwrap();
    assert_eq!(
        tick.health,
        Health { sched_slip_us: 40_000, client_saturated: true, conn_errors: 1, timeouts: 1 }
    );
    let p = partial_from_tick("w", 2, false, &tick);
    assert_eq!((p.sched_slip_us, p.client_saturated), (40_000, true));
    assert_eq!((p.conn_errors, p.timeouts), (1, 1));
    assert_eq!((p.buckets[0].fail_transport, p.buckets[0].timeout), (1, 1));
    // Failures to connect are no responses.
    assert_eq!(p.buckets[0].total, 0);
    let p = partial_from_tick("w", 3, false, &emitter.emit(&mut live).unwrap());
    assert_eq!((p.sched_slip_us, p.client_saturated, p.conn_errors, p.timeouts), (0, false, 0, 0));
}

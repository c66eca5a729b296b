use correctness_bench::coordinator::admin::{
    default_connections, default_keepalive, default_method, default_timeout_ms, finalize, to_error,
    FinalsAcc, RunRequest, WorkerView,
};
use correctness_bench::coordinator::dispatch::{
    aggregate_tick, build_assignment, close_dispatch, method_from_name, plan_dispatch, summarise,
    AggBucket, AggPercentiles, AggThisTick, AggregatedTick, CountOverflow, Cumulative,
    DispatchError, DispatchSpec, DispatchSummary, TickAggregator, WorkerSummary,
};
use correctness_bench::coordinator::{
    dial_url, CoordinatorService, CoordinatorState, RunHandle, Worker, CONTRACT_VERSION,
    HEARTBEAT_DEAD_AFTER,
};
use correctness_bench::hist::{serialize_v2, Histos, Summary};
use correctness_bench::proto::{Partial, RateLimit, RpsBucket, WorkerInfo};
use correctness_bench::rate::Rate;
use correctness_bench::worker::RlAction;
use correctness_bench::worker_node::build_run_spec;

fn info(id: &str, address: &str, version: &str) -> WorkerInfo {
    WorkerInfo {
        worker_id: id.into(),
        address: address.into(),
        contract_version: version.into(),
        max_rps: 5000,
    }
}

fn worker(id: &str, last_heartbeat: u64) -> Worker {
    Worker {
        worker_id: id.into(),
        address: "127.0.0.1:1".into(),
        contract_version: CONTRACT_VERSION.into(),
        max_rps: 0,
        registered_at: 0,
        last_heartbeat,
    }
}

#[test]
fn worker_register_grows_the_registry() {
    let mut svc = CoordinatorService::new(CoordinatorState::new());
    let ack = svc.register(&info("worker-a", "127.0.0.1:9101", CONTRACT_VERSION), 5);
    assert!(ack.accepted, "register rejected: {}", ack.reason);
    assert_eq!(svc.state.list_workers().len(), 1);
    let ack = svc.register(&info("worker-b", "127.0.0.1:9102", CONTRACT_VERSION), 6);
    assert!(ack.accepted);
    assert_eq!(svc.state.list_workers().len(), 2);
    let ack = svc.register(&info("worker-c", "127.0.0.1:9103", "0.0.0-bad"), 7);
    assert!(!ack.accepted, "old-contract worker should be rejected");
    assert!(ack.reason.contains("contract version"));
    assert_eq!(ack.reason, "contract version mismatch: worker=0.0.0-bad coordinator=1.0.0");
    assert_eq!(svc.state.list_workers().len(), 2);
}

#[test]
fn incomplete_introductions_are_turned_down() {
    let mut svc = CoordinatorService::new(CoordinatorState::new());
    for (id, address) in [("", "a:1"), ("w", ""), ("", "")] {
        let ack = svc.register(&info(id, address, CONTRACT_VERSION), 1);
        assert!(!ack.accepted);
        assert_eq!(ack.reason, "worker_id and address are required");
    }
    assert_eq!(svc.state.worker_count(), 0);
}

#[test]
fn registering_again_takes_the_same_place() {
    let mut svc = CoordinatorService::new(CoordinatorState::new());
    assert!(!svc.state.is_registered("a"));
    svc.register(&info("a", "old:1", CONTRACT_VERSION), 1);
    assert!(svc.state.is_registered("a") && !svc.state.is_registered("b"));
    svc.register(&info("b", "b:1", CONTRACT_VERSION), 2);
    svc.register(&info("a", "new:1", CONTRACT_VERSION), 3);
    let all = svc.state.list_workers();
    assert_eq!(all.len(), 2);
    assert_eq!((all[0].address.as_str(), all[0].registered_at), ("new:1", 3));
    let v = WorkerView::of(&all[0]);
    assert_eq!((v.worker_id.as_str(), v.address.as_str(), v.max_rps), ("a", "new:1", 5000));
    assert_eq!(v.contract_version, "1.0.0");
}

#[test]
fn reaper_evicts_only_the_silent_worker() {
    let mut state = CoordinatorState::new();
    let now = 100_000u64;
    state.insert_worker(worker("alive", now));
    state.insert_worker(worker("dead", now - (HEARTBEAT_DEAD_AFTER + 2_000)));
    assert_eq!(state.list_workers().len(), 2);
    let evicted = state.reap_dead_workers(now, HEARTBEAT_DEAD_AFTER);
    assert_eq!(evicted, vec!["dead".to_string()], "only the silent worker should be evicted");
    let remaining: Vec<String> = state.list_workers().into_iter().map(|w| w.worker_id).collect();
    assert_eq!(remaining, vec!["alive".to_string()], "the heartbeating worker must remain");
    assert!(state.reap_dead_workers(now, HEARTBEAT_DEAD_AFTER).is_empty());
}

#[test]
fn heartbeats_keep_a_worker_alive() {
    let mut svc = CoordinatorService::new(CoordinatorState::new());
    svc.register(&info("w", "w:1", CONTRACT_VERSION), 0);
    assert!(svc.heartbeat("w", HEARTBEAT_DEAD_AFTER));
    assert!(svc.heartbeat("stranger", 7));
    let at = 2 * HEARTBEAT_DEAD_AFTER;
    assert!(svc.state.reap_dead_workers(at, HEARTBEAT_DEAD_AFTER).is_empty());
    assert_eq!(svc.state.reap_dead_workers(at + 1, HEARTBEAT_DEAD_AFTER), vec!["w".to_string()]);
}

#[test]
fn abort_unknown_run_returns_false() {
    let mut state = CoordinatorState::new();
    assert!(!state.abort_run("nope"));
    assert!(state.abort_calls("nope").is_empty());
}

#[test]
fn runs_are_noted_aborted_and_forgotten() {
    let mut state = CoordinatorState::new();
    let addrs = vec!["a:1".to_string(), "https://b:2".to_string()];
    state.register_run("r".into(), RunHandle { worker_addrs: addrs, cancelled: false });
    assert!(state.is_run_active("r"));
    assert!(!state.is_run_cancelled("r"));
    assert!(state.abort_run("r"));
    assert!(state.is_run_cancelled("r") && state.is_run_active("r"));
    let calls = state.abort_calls("r");
    let urls: Vec<&str> = calls.iter().map(|c| c.url.as_str()).collect();
    assert_eq!(urls, vec!["http://a:1", "https://b:2"]);
    assert_eq!(calls[0].request.run_id, "r");
    assert_eq!(calls[0].request.worker_id, "");
    assert_eq!(calls[0].request.reason, "operator abort");
    state.deregister_run("r");
    state.deregister_run("r");
    assert!(!state.is_run_active("r") && !state.abort_run("r"));
    assert_eq!(dial_url("http://x"), "http://x");
}

#[test]
fn the_coordinator_does_not_run_slices() {
    let svc = CoordinatorService::new(CoordinatorState::new());
    assert_eq!(
        svc.run_slice().message(),
        "RunSlice is implemented on the worker side, not the coordinator"
    );
    assert_eq!(
        svc.abort().message(),
        "Abort is implemented on the worker side, not the coordinator"
    );
}

fn spec(rps: u64) -> DispatchSpec {
    DispatchSpec {
        run_id: "run".into(),
        target_url: "http://t/".into(),
        target_method: "post".into(),
        target_rps: Rate::per_second(rps),
        duration_s: 9,
        connections: 4,
        keepalive: true,
        timeout_ms: 1234,
        expected_status: vec![200, 204],
        max_latency_us: Some(5),
        min_body_bytes: Some(6),
        max_body_bytes: Some(7),
        content_type: Some("text/plain".into()),
        target_headers: vec![("k".into(), "v".into())],
        epoch_unix_us: 0,
    }
}

#[test]
fn admin_runs_returns_503_when_no_workers() {
    let mut state = CoordinatorState::new();
    let request = RunRequest {
        run_id: "deadbeef-dead-dead-dead-deaddeadbeef".into(),
        target_url: "http://example.com/".into(),
        target_method: default_method(),
        target_rps: Rate::per_second(100),
        duration_s: 1,
        connections: default_connections(),
        keepalive: default_keepalive(),
        timeout_ms: default_timeout_ms(),
        expected_status: vec![],
        max_latency_us: None,
        min_body_bytes: None,
        max_body_bytes: None,
        content_type: None,
        target_headers: vec![],
        epoch_unix_us: 0,
        control_tick_url: None,
        control_finalize_url: None,
    };
    let (spec, _) = request.into_dispatch();
    let r = plan_dispatch(&mut state, &spec, 1);
    assert_eq!(r.err(), Some(DispatchError::NoWorkers));
    let body = to_error(DispatchError::NoWorkers);
    assert_eq!(body.status, 503);
    assert_eq!(body.error, "no registered workers");
    assert!(!state.is_run_active("deadbeef-dead-dead-dead-deaddeadbeef"));
}

#[test]
fn a_run_is_divided_equally() {
    let mut state = CoordinatorState::new();
    for id in ["a", "b", "c"] {
        state.insert_worker(worker(id, 0));
    }
    let slices = plan_dispatch(&mut state, &spec(100), 77).unwrap();
    assert_eq!(slices.len(), 3);
    assert!(state.is_run_active("run"));
    let a = &slices[1].assignment;
    assert_eq!(slices[1].url, "http://127.0.0.1:1");
    assert_eq!(a.worker_id, "b");
    assert_eq!(a.throughput, Rate { requests: 100, per_us: 3_000_000 });
    assert_eq!(a.catch_up, Rate { requests: 200, per_us: 3_000_000 });
    assert_eq!(a.epoch_unix_us, 77);
    let t = a.target.as_ref().unwrap();
    assert_eq!((t.url.as_str(), t.method, t.timeout_ms, t.verify_tls), ("http://t/", 1, 1234, true));
    assert_eq!(t.headers, vec![("k".to_string(), "v".to_string())]);
    let s = a.assertions.as_ref().unwrap();
    assert_eq!(s.expected_status, vec![200, 204]);
    assert_eq!((s.max_latency_us, s.min_body_bytes, s.max_body_bytes), (Some(5), Some(6), Some(7)));
    assert_eq!(s.content_type.as_deref(), Some("text/plain"));
    let p = a.rate_limit_policy.unwrap();
    assert_eq!((p.action, p.max_backoff_ms, p.record_onset), (1, 5000, true));
    assert_eq!((a.connections, a.duration_s, a.warmup_s, a.load_model), (4, 9, 0, 0));
}

#[test]
fn an_epoch_that_is_set_stands() {
    let mut state = CoordinatorState::new();
    state.insert_worker(worker("a", 0));
    let mut s = spec(1);
    s.epoch_unix_us = 55;
    let slices = plan_dispatch(&mut state, &s, 77).unwrap();
    assert_eq!(slices[0].assignment.epoch_unix_us, 55);
    let a = build_assignment(&s, "z", s.target_rps, 3);
    assert_eq!((a.worker_id.as_str(), a.epoch_unix_us), ("z", 3));
}

#[test]
fn methods_by_name() {
    for (name, n) in
        [("GET", 0), ("Post", 1), ("put", 2), ("PATCH", 3), ("delete", 4), ("Head", 5), ("BREW", 0)]
    {
        assert_eq!(method_from_name(name), n);
    }
}

fn bucket(total: u64, pass: u64, fail_status: u64, rate_limited: u64) -> RpsBucket {
    RpsBucket {
        rps_lo: 0,
        rps_hi: 10,
        total,
        pass,
        fail_transport: 0,
        fail_status,
        fail_latency: 0,
        fail_size: 0,
        fail_content_type: 0,
        rate_limited,
        timeout: 0,
    }
}

fn partial(tick: u64, buckets: Vec<RpsBucket>, rps: u64, onset: Option<u64>) -> Partial {
    Partial {
        worker_id: "w".into(),
        tick,
        is_final: false,
        corrected_hist: vec![],
        uncorrected_hist: vec![],
        ttfb_hist: vec![],
        this_tick_corrected: vec![],
        buckets,
        offered_rps: rps,
        achieved_rps: rps,
        sched_slip_us: 0,
        client_saturated: false,
        in_flight: 0,
        conn_errors: 0,
        timeouts: 0,
        rate_limit: onset.map(|o| RateLimit {
            count_this_tick: 1,
            first_429_mrps: Some(o),
            last_retry_after_ms: None,
            backoff_us_total: 0,
        }),
        bytes_sent: 0,
        bytes_recv: 0,
        sampled: vec![],
    }
}

#[test]
fn a_tick_adds_up_its_reports() {
    let mut a = partial(4, vec![bucket(10, 7, 2, 1), bucket(5, 5, 0, 0)], 15, Some(900));
    let mut b = partial(4, vec![bucket(20, 20, 0, 0)], 20, Some(500));
    let mut ha = Histos::new();
    let mut hb = Histos::new();
    let mut full = Histos::new();
    for i in 1..=50u64 {
        ha.record(i, 1);
        hb.record(i + 50, 2);
        full.record(i, 1);
        full.record(i + 50, 2);
    }
    a.corrected_hist = serialize_v2(&ha.corrected);
    b.corrected_hist = serialize_v2(&hb.corrected);
    a.uncorrected_hist = vec![9, 9, 9];
    b.uncorrected_hist = serialize_v2(&hb.uncorrected);
    let mut cum = Cumulative { completed: 100, pass: 90, fail_status: 10 };
    let t = aggregate_tick(4, &vec![a, b], &mut cum).unwrap();
    assert_eq!(t.elapsed_s, 4);
    assert_eq!(t.achieved_rps_1s, 35);
    assert_eq!(
        t.this_tick,
        AggThisTick {
            total: 35,
            pass: 32,
            fail_status: 2,
            fail_latency: 0,
            fail_size: 0,
            fail_content_type: 0,
            rate_limited: 1,
        }
    );
    assert_eq!((t.completed_total, t.pass_total, t.fail_status_total), (135, 122, 12));
    assert_eq!(cum, Cumulative { completed: 135, pass: 122, fail_status: 12 });
    assert_eq!((t.buckets[0].rps_lo, t.buckets[0].rps_hi, t.buckets[0].total), (30, 40, 35));
    assert_eq!(t.rate_limit_onset_mrps, Some(500));
    let s = Summary::from(&full.corrected);
    assert_eq!(
        t.percentiles_so_far,
        AggPercentiles { p50_us: s.p50_us, p95_us: s.p95_us, p99_us: s.p99_us }
    );
    assert_eq!((s.p50_us, s.p95_us, s.p99_us), (50, 95, 99));
    assert_eq!(t.merged_hist_v2, serialize_v2(&full.corrected));
    // The malformed snapshot is left out, the other one stands.
    assert_eq!(t.merged_uncorrected_hist_v2, serialize_v2(&hb.uncorrected));
}

#[test]
fn a_tick_does_not_depend_on_the_order_of_its_reports() {
    let reports = |order: [usize; 4]| -> Vec<Partial> {
        let mut all: Vec<Partial> = (0..4u64)
            .map(|w| partial(1, vec![bucket(10 + w, 10, w, 0)], 10 + w, (w > 0).then_some(100 * w)))
            .collect();
        for (w, p) in all.iter_mut().enumerate() {
            let mut h = Histos::new();
            for i in 1..=40u64 {
                h.record(1000 * w as u64 + i, i);
            }
            p.worker_id = format!("w{w}");
            p.corrected_hist = serialize_v2(&h.corrected);
            p.uncorrected_hist = serialize_v2(&h.uncorrected);
        }
        // One report comes without a snapshot, one with a malformed one, and one
        // with a snapshot of other settings.
        all[1].corrected_hist = vec![];
        all[2].corrected_hist.truncate(20);
        let mut coarse = hdrhistogram::Histogram::<u64>::new_with_bounds(1, 5_000, 1).unwrap();
        coarse.record_n(3_333, 7).unwrap();
        all[3].corrected_hist.clear();
        hdrhistogram::serialization::Serializer::serialize(
            &mut hdrhistogram::serialization::V2DeflateSerializer::new(),
            &coarse,
            &mut all[3].corrected_hist,
        )
        .unwrap();
        let mut all: Vec<Option<Partial>> = all.into_iter().map(Some).collect();
        order.iter().map(|i| all[*i].take().unwrap()).collect()
    };
    let add_up = |order: [usize; 4]| {
        let mut cum = Cumulative { completed: 1, pass: 1, fail_status: 0 };
        let t = aggregate_tick(1, &reports(order), &mut cum).unwrap();
        (t, cum)
    };
    let (first, cum) = add_up([0, 1, 2, 3]);
    assert_eq!((first.this_tick.total, first.completed_total), (46, 47));
    assert_eq!(first.rate_limit_onset_mrps, Some(100));
    let merged = correctness_bench::hist::deserialize_v2(&first.merged_hist_v2).unwrap();
    assert_eq!(Summary::from(&merged).count, 47);
    assert_eq!(first.percentiles_so_far.p50_us, 24);
    for order in [[3, 2, 1, 0], [1, 0, 3, 2], [2, 3, 0, 1], [1, 2, 3, 0]] {
        let (t, c) = add_up(order);
        assert_eq!(c, cum);
        assert_eq!((t.this_tick, &t.buckets), (first.this_tick, &first.buckets));
        assert_eq!(t.percentiles_so_far, first.percentiles_so_far);
        assert_eq!(t.rate_limit_onset_mrps, first.rate_limit_onset_mrps);
        assert_eq!(t.merged_hist_v2, first.merged_hist_v2);
        assert_eq!(t.merged_uncorrected_hist_v2, first.merged_uncorrected_hist_v2);
    }
}

#[test]
fn a_tick_without_snapshots_has_no_percentiles() {
    let mut cum = Cumulative { completed: 0, pass: 0, fail_status: 0 };
    let t = aggregate_tick(1, &vec![partial(1, vec![], 0, None)], &mut cum).unwrap();
    assert_eq!(t.percentiles_so_far, AggPercentiles::default());
    assert!(t.merged_hist_v2.is_empty() && t.merged_uncorrected_hist_v2.is_empty());
    assert_eq!(t.rate_limit_onset_mrps, None);
}

#[test]
fn counts_that_do_not_fit_are_refused() {
    let mut cum = Cumulative { completed: 5, pass: 0, fail_status: 0 };
    let too_many = vec![partial(1, vec![bucket(u64::MAX, 0, 0, 0), bucket(1, 0, 0, 0)], 0, None)];
    assert!(aggregate_tick(1, &too_many, &mut cum).is_none());
    let with_before = vec![partial(1, vec![bucket(u64::MAX - 4, 0, 0, 0)], 0, None)];
    assert!(aggregate_tick(1, &with_before, &mut cum).is_none());
    assert_eq!(cum.completed, 5);
    let mut w = WorkerSummary::new();
    assert!(w.observe(&partial(1, vec![bucket(u64::MAX, 0, 0, 0)], 0, None)));
    assert!(!w.observe(&too_many[0]));
    assert_eq!(w.tally.total, u64::MAX);
    let mut agg = TickAggregator::new(1);
    let r = agg.observe("a".into(), partial(1, vec![bucket(u64::MAX, 0, 0, 0), bucket(1, 0, 0, 0)], 0, None));
    assert_eq!(r.err(), Some(CountOverflow));
    assert!(summarise(&vec![Some(w), Some(w)], false).is_none());
}

#[test]
fn a_tick_goes_out_once_every_worker_reported_it() {
    let mut agg = TickAggregator::new(2);
    assert!(agg.observe("a".into(), partial(1, vec![bucket(1, 1, 0, 0)], 1, None)).unwrap().is_none());
    assert!(agg.observe("a".into(), partial(2, vec![bucket(2, 2, 0, 0)], 2, None)).unwrap().is_none());
    // A second report of the same tick takes the place of the first.
    assert!(agg.observe("a".into(), partial(1, vec![bucket(3, 3, 0, 0)], 3, None)).unwrap().is_none());
    let t = agg.observe("b".into(), partial(2, vec![bucket(5, 5, 0, 0)], 5, None)).unwrap().unwrap();
    assert_eq!((t.elapsed_s, t.this_tick.total, t.completed_total), (2, 7, 7));
    let t = agg.observe("b".into(), partial(1, vec![bucket(7, 7, 0, 0)], 7, None)).unwrap().unwrap();
    assert_eq!((t.elapsed_s, t.this_tick.total, t.completed_total), (1, 10, 17));
    let mut last = partial(3, vec![], 0, None);
    last.is_final = true;
    assert!(agg.observe("a".into(), last).unwrap().is_none());
}

#[test]
fn the_order_of_reports_does_not_matter() {
    let build = |order: [u64; 3]| {
        let ps: Vec<Partial> = order
            .iter()
            .map(|i| {
                let mut h = Histos::new();
                for k in 0..20 {
                    h.record(i * 1000 + k, 1);
                }
                let mut p = partial(1, vec![bucket(*i, 0, *i, 0)], *i, Some(1000 / i));
                p.corrected_hist = serialize_v2(&h.corrected);
                p
            })
            .collect();
        let mut cum = Cumulative { completed: 0, pass: 0, fail_status: 0 };
        aggregate_tick(1, &ps, &mut cum).unwrap()
    };
    let a = build([1, 2, 3]);
    let b = build([3, 1, 2]);
    assert_eq!(a.this_tick, b.this_tick);
    assert_eq!(a.achieved_rps_1s, b.achieved_rps_1s);
    assert_eq!(a.rate_limit_onset_mrps, b.rate_limit_onset_mrps);
    assert_eq!(a.percentiles_so_far, b.percentiles_so_far);
    assert_eq!(a.merged_hist_v2, b.merged_hist_v2);
}

#[test]
fn a_dispatch_that_loses_workers_says_so() {
    let mut w = WorkerSummary::new();
    assert!(w.observe(&partial(1, vec![bucket(10, 8, 1, 1)], 10, Some(70))));
    let lost = w;
    let mut last = partial(2, vec![], 0, Some(60));
    last.is_final = true;
    assert!(w.observe(&last));
    assert!(w.finished);
    let mut state = CoordinatorState::new();
    state.register_run("r".into(), RunHandle { worker_addrs: vec![], cancelled: false });
    state.abort_run("r");
    let s = close_dispatch(&mut state, "r", &vec![Some(w), Some(lost), None]).unwrap();
    assert!(s.aborted);
    assert_eq!((s.workers_dispatched, s.workers_finished, s.workers_lost), (3, 1, 2));
    assert_eq!((s.total_completed, s.total_pass, s.total_rate_limited), (20, 16, 2));
    assert_eq!(s.first_429_mrps, Some(60));
    assert_eq!(s.warnings[0].code, "WORKER_LOST");
    assert_eq!(s.warnings[0].message, "worker lost mid-run: ran 1 of 3 workers");
    let fine = summarise(&vec![Some(w)], false).unwrap();
    assert!(fine.warnings.is_empty() && !fine.aborted);
}

fn tick(rps: u64, total: u64, pass: u64, rate_limited: u64, p99: u64) -> AggregatedTick {
    AggregatedTick {
        elapsed_s: 1,
        achieved_rps_1s: rps,
        completed_total: 0,
        pass_total: 0,
        fail_status_total: 0,
        this_tick: AggThisTick {
            total,
            pass,
            fail_status: total - pass - rate_limited,
            fail_latency: 0,
            fail_size: 0,
            fail_content_type: 0,
            rate_limited,
        },
        percentiles_so_far: AggPercentiles { p50_us: p99 / 2, p95_us: p99 / 2, p99_us: p99 },
        buckets: vec![AggBucket {
            rps_lo: rps / 10 * 10,
            rps_hi: rps / 10 * 10 + 10,
            total,
            pass,
            fail_status: total - pass - rate_limited,
            fail_latency: 0,
            fail_size: 0,
            fail_content_type: 0,
            rate_limited,
        }],
        rate_limit_onset_mrps: None,
        merged_hist_v2: if p99 > 0 { vec![1, 2, 3] } else { vec![] },
        merged_uncorrected_hist_v2: vec![],
    }
}

fn summary(aborted: bool) -> DispatchSummary {
    let mut s = summarise(&vec![], aborted).unwrap();
    s.total_completed = 123;
    s.total_pass = 100;
    s
}

#[test]
fn final_figures_keep_the_latest_that_say_something() {
    let mut f = FinalsAcc::new();
    assert!(f.observe(&tick(200, 100, 100, 0, 40)));
    assert!(f.observe(&tick(210, 100, 100, 0, 0)));
    assert_eq!((f.last_p50_us, f.last_p99_us, f.last_achieved_rps), (20, 40, 210));
    assert_eq!(f.last_hist_v2, vec![1, 2, 3]);
    let out = finalize(&f, &summary(true));
    assert_eq!(out.status, "aborted");
    assert_eq!((out.effective_rps, out.p99_us, out.p999_us), (210, 40, 40));
    assert_eq!((out.total_requests, out.total_pass), (123, 100));
    assert_eq!(out.corrected_hist_b64, "AQID");
    assert_eq!(out.uncorrected_hist_b64, "");
    assert_eq!(finalize(&f, &summary(false)).status, "completed");
}

#[test]
fn snapshots_travel_as_base64_text() {
    let mut f = FinalsAcc::new();
    for (bytes, text) in [
        (vec![], ""),
        (vec![1], "AQ=="),
        (vec![1, 2], "AQI="),
        (vec![251, 255, 254], "+//+"),
        (vec![0, 16, 131, 16, 81, 135, 32, 146], "ABCDEFGHIJI="),
        (vec![105, 183, 29, 121, 248, 33, 211], "abcdefgh0w=="),
    ] {
        f.last_hist_v2 = bytes;
        assert_eq!(finalize(&f, &summary(false)).corrected_hist_b64, text);
    }
}

#[test]
fn the_cliff_is_the_lowest_failing_bucket() {
    let mut f = FinalsAcc::new();
    assert_eq!(f.cliff_rps(), None);
    f.observe(&tick(305, 100, 10, 0, 1));
    f.observe(&tick(255, 100, 94, 0, 1));
    f.observe(&tick(105, 29, 0, 0, 1)); // too few
    f.observe(&tick(155, 100, 95, 0, 1)); // at the threshold
    assert_eq!(f.cliff_rps(), Some(255));
    // Rate limiting makes no cliff.
    f.observe(&tick(205, 100, 40, 60, 1));
    assert_eq!(f.cliff_rps(), Some(255));
    // Counts of the same bucket add up.
    f.observe(&tick(105, 1, 0, 0, 1));
    assert_eq!(f.cliff_rps(), Some(105));
}

#[test]
fn run_requests_become_dispatches() {
    assert_eq!(default_method(), "GET");
    assert_eq!((default_connections(), default_keepalive(), default_timeout_ms()), (50, true, 30_000));
    let s = spec(10);
    let req = RunRequest {
        run_id: s.run_id,
        target_url: s.target_url,
        target_method: s.target_method,
        target_rps: s.target_rps,
        duration_s: s.duration_s,
        connections: s.connections,
        keepalive: s.keepalive,
        timeout_ms: s.timeout_ms,
        expected_status: s.expected_status,
        max_latency_us: s.max_latency_us,
        min_body_bytes: s.min_body_bytes,
        max_body_bytes: s.max_body_bytes,
        content_type: s.content_type,
        target_headers: s.target_headers,
        epoch_unix_us: 3,
        control_tick_url: Some("http://c/tick".into()),
        control_finalize_url: None,
    };
    let (d, push) = req.into_dispatch();
    assert_eq!((d.run_id.as_str(), d.target_url.as_str(), d.timeout_ms), ("run", "http://t/", 1234));
    assert_eq!((d.target_rps, d.epoch_unix_us), (Rate::per_second(10), 3));
    assert_eq!(push.run_id, "run");
    assert_eq!(push.tick_url.as_deref(), Some("http://c/tick"));
    assert_eq!(push.finalize_url, None);
}

#[test]
fn workers_run_what_was_dispatched() {
    let mut state = CoordinatorState::new();
    state.insert_worker(worker("a", 0));
    state.insert_worker(worker("b", 0));
    let slices = plan_dispatch(&mut state, &spec(100), 9).unwrap();
    for slice in &slices {
        let run = build_run_spec(&slice.assignment).unwrap();
        assert_eq!((run.url.host.as_deref(), run.method.as_str()), (Some("t"), "POST"));
        assert_eq!(run.headers, vec![("k".to_string(), "v".to_string())]);
        assert_eq!(run.target_rps, Rate { requests: 100, per_us: 2_000_000 });
        assert_eq!((run.duration_s, run.connections, run.timeout_us), (9, 4, 1_234_000));
        assert_eq!(run.expected_status, vec![200, 204]);
        assert_eq!(run.max_latency_us, Some(5));
        assert_eq!((run.min_body_bytes, run.max_body_bytes), (Some(6), Some(7)));
        assert_eq!(run.content_type.as_deref(), Some("text/plain"));
        assert_eq!((run.rate_limit_action, run.max_backoff_ms), (RlAction::Backoff, 5000));
    }
}

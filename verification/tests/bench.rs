use correctness_bench::bench::{
    abort_url, build_create_request, conclude, create_refusal, dashboard_url, is_tick, parse_sse,
    runs_url, stream_url, total_wait_s, BenchArgs, BenchError, ClientTick, ExitKind, SseBuffer,
    StreamEnd, TickAccum,
};
use correctness_bench::rate::Rate;

#[test]
fn events_are_read_line_by_line() {
    let e = parse_sse("event: tick\ndata: {\"a\":1}\n\n").unwrap();
    assert_eq!((e.name.as_str(), e.data.as_str()), ("tick", "{\"a\":1}"));
    assert!(is_tick(&e));
    let e = parse_sse("data:one\r\ndata:   two\r\nid: 7\r\n\r\n").unwrap();
    assert_eq!((e.name.as_str(), e.data.as_str()), ("message", "one\ntwo"));
    assert!(!is_tick(&e));
    assert!(parse_sse(": keep-alive\n\n").is_none());
    assert!(parse_sse("event: tick\n\n").is_none());
    assert!(parse_sse("data:\n\n").is_none());
    let e = parse_sse("data:\ndata: x\n").unwrap();
    assert_eq!(e.data, "x");
}

#[test]
fn the_stream_is_cut_at_blank_lines() {
    let mut b = SseBuffer::new();
    assert!(b.push_chunk(b"data: a\n").is_empty());
    assert_eq!(b.push_chunk(b"\ndata: b\n\nda"), vec!["data: a\n\n", "data: b\n\n"]);
    assert_eq!(b.push_text("ta: c\n\n\n\n"), vec!["data: c\n\n", "\n\n"]);
    assert_eq!(b.push_text("\n\n\n"), vec!["\n\n"]);
    assert_eq!(b.push_text("x"), Vec::<String>::new());
    // What is no UTF-8 is replaced.
    assert_eq!(b.push_chunk(b"\xff\n\n"), vec!["\nx\u{fffd}\n\n"]);
}

fn tick(n: u64) -> ClientTick {
    ClientTick {
        elapsed_s: n,
        completed_total: 10 * n,
        pass_total: 9 * n,
        fail_status_total: n,
        total: 10,
        pass: 9,
        fail_latency: 1,
        fail_size: 2,
        fail_content_type: 3,
        p50_us: 5,
        p99_us: 6,
    }
}

#[test]
fn ticks_are_added_up() {
    let mut a = TickAccum::new();
    for n in 1..=4 {
        assert!(a.observe(&tick(n)));
    }
    assert_eq!(a.received, 4);
    assert_eq!(a.fail_status_total, 4);
    assert_eq!((a.fail_latency_total, a.fail_size_total, a.fail_content_type_total), (4, 8, 12));
    assert_eq!(a.last, Some(tick(4)));
    let mut big = tick(5);
    big.fail_size = u64::MAX;
    assert!(!a.observe(&big));
    assert_eq!(a.received, 4);
}

fn args() -> BenchArgs {
    BenchArgs {
        target: "http://t/x".into(),
        method: "post".into(),
        rps: Rate::per_second(100),
        duration_s: 30,
        connections: 50,
        load_model: "open".into(),
        expected_status: vec![],
        max_latency_ms: None,
        name: None,
        key: None,
        timeout_ms: 30_000,
    }
}

#[test]
fn the_request_for_a_run() {
    let r = build_create_request(&args());
    assert_eq!((r.target.url.as_str(), r.target.method.as_str()), ("http://t/x", "POST"));
    assert!(r.target.headers.is_empty() && r.target.verify_tls && r.keepalive);
    assert_eq!((r.expected_status, r.max_latency_us, r.name), (None, None, None));
    assert_eq!((r.rate_limit_action.as_str(), r.record_onset), ("backoff", true));
    let mut a = args();
    a.expected_status = vec![200, 201];
    a.max_latency_ms = Some(250);
    a.key = Some("SECRET-REDACTED".into());
    a.name = Some("n".into());
    let r = build_create_request(&a);
    assert_eq!(r.expected_status, Some(vec![200, 201]));
    assert_eq!(r.max_latency_us, Some(250_000));
    assert_eq!(
        r.target.headers,
        vec![("Authorization".to_string(), "Bearer SECRET-REDACTED".to_string())]
    );
    assert_eq!(r.name.as_deref(), Some("n"));
}

#[test]
fn addresses() {
    assert_eq!(runs_url("http://c:8000/"), "http://c:8000/v1/runs");
    assert_eq!(stream_url("http://c", "r1"), "http://c/v1/runs/r1/stream");
    assert_eq!(abort_url("http://c//", "r1"), "http://c/v1/runs/r1/abort");
    assert_eq!(dashboard_url("http://w/", "r1"), "http://w/runs/r1");
    assert_eq!(total_wait_s(30), 35);
}

#[test]
fn exit_codes() {
    assert_eq!(conclude(StreamEnd::Ended, 3), ExitKind::Completed);
    assert_eq!(conclude(StreamEnd::TimedOut, 3), ExitKind::Completed);
    assert_eq!(conclude(StreamEnd::Failed, 3), ExitKind::Completed);
    assert_eq!(conclude(StreamEnd::Failed, 0), ExitKind::StreamError);
    assert_eq!(conclude(StreamEnd::Ended, 0), ExitKind::EngineError);
    assert_eq!(conclude(StreamEnd::TimedOut, 0), ExitKind::EngineError);
    assert_eq!(conclude(StreamEnd::Interrupted, 9), ExitKind::Aborted);
    let codes: Vec<u8> =
        [ExitKind::Completed, ExitKind::Aborted, ExitKind::EngineError, ExitKind::StreamError]
            .iter()
            .map(|k| k.code())
            .collect();
    assert_eq!(codes, vec![0, 1, 1, 1]);
    assert_eq!(BenchError::Unreachable.code(), 2);
    assert_eq!(BenchError::BadSpec.code(), 2);
    assert_eq!(BenchError::Internal.code(), 1);
    assert_eq!(create_refusal(201), None);
    assert_eq!(create_refusal(422), Some(BenchError::BadSpec));
}

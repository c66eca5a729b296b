//! The worker's side of the coordinator protocol: an assignment becomes a run,
//! and the run's ticks become reports.

use vstd::prelude::*;

use crate::connection::{self, Health};
use crate::proto::{
    AbortAck, AbortRequest, Assignment, AssertSpec, HttpMethod, Partial, RateLimit, RateLimitAction,
    RateLimitPolicy, RpsBucket, Started, Target, WorkerEvent,
};
use crate::run::{self, Bucket, Tick};
use crate::target::{self, TargetUri};
use crate::worker::{RlAction, RunSpec};
use crate::{response, text};

verus! {

/// A worker node.
#[derive(Debug)]
pub struct WorkerNodeService {
    pub worker_id: String,
}

/// A call that the other side of the protocol answers.
#[derive(Debug, Clone, Copy, PartialEq, Eq, Structural)]
pub enum Unimplemented {
    RegisterLivesOnCoordinator,
    HeartbeatLivesOnCoordinator,
    RunSliceLivesOnWorker,
    AbortLivesOnWorker,
}

impl Unimplemented {
    pub open spec fn text(self) -> Seq<char> {
        match self {
            Unimplemented::RegisterLivesOnCoordinator => "Register lives on the coordinator"@,
            Unimplemented::HeartbeatLivesOnCoordinator => "Heartbeat lives on the coordinator"@,
            Unimplemented::RunSliceLivesOnWorker => "RunSlice is implemented on the worker side, not the coordinator"@,
            Unimplemented::AbortLivesOnWorker => "Abort is implemented on the worker side, not the coordinator"@,
        }
    }

    pub fn message(&self) -> (s: &'static str)
        ensures
            s@ == self.text(),
    {
        match self {
            Unimplemented::RegisterLivesOnCoordinator => "Register lives on the coordinator",
            Unimplemented::HeartbeatLivesOnCoordinator => "Heartbeat lives on the coordinator",
            Unimplemented::RunSliceLivesOnWorker => "RunSlice is implemented on the worker side, not the coordinator",
            Unimplemented::AbortLivesOnWorker => "Abort is implemented on the worker side, not the coordinator",
        }
    }
}

impl WorkerNodeService {
    pub fn new(worker_id: String) -> (s: Self)
        ensures
            s.worker_id == worker_id,
    {
        WorkerNodeService { worker_id }
    }

    /// Workers register with the coordinator, not with each other.
    pub fn register(&self) -> (e: Unimplemented)
        ensures
            e == Unimplemented::RegisterLivesOnCoordinator,
    {
        Unimplemented::RegisterLivesOnCoordinator
    }

    /// Heartbeats go to the coordinator.
    pub fn heartbeat(&self) -> (e: Unimplemented)
        ensures
            e == Unimplemented::HeartbeatLivesOnCoordinator,
    {
        Unimplemented::HeartbeatLivesOnCoordinator
    }

    /// Every abort is accepted, of a run that has ended too.
    pub fn abort(&self, req: &AbortRequest) -> (a: AbortAck)
        ensures
            a.accepted,
    {
        AbortAck { accepted: true }
    }

    /// Accept an assignment: the run to carry out and the stream to report it
    /// on, or why it is refused.
    pub fn run_slice(&self, a: &Assignment) -> (r: Result<(RunSpec, SliceStream), String>)
        ensures
            r matches Ok((spec, stream)) ==> {
                &&& runs(*a, spec)
                &&& stream.worker_id@ == self.worker_id@
                &&& stream.sent == 0
            },
            r is Err <==> assignment_refusal(*a) is Some,
            r matches Err(e) ==> assignment_refusal(*a) == Some(e@),
    {
        match build_run_spec(a) {
            Ok(spec) => Ok((spec, SliceStream { worker_id: self.worker_id.clone(), sent: 0 })),
            Err(e) => Err(e),
        }
    }
}

/// Timeout of an assignment that sets none, in milliseconds.
pub const DEFAULT_TIMEOUT_MS: u64 = 30_000;

/// Cap on one backoff where the policy sets none.
pub const DEFAULT_MAX_BACKOFF_MS: u64 = 5_000;

/// The longest wait for a response, in microseconds.
pub open spec fn timeout_us_of(timeout_ms: i32) -> u64 {
    if timeout_ms > 0 {
        (timeout_ms * 1000) as u64
    } else {
        (DEFAULT_TIMEOUT_MS * 1000) as u64
    }
}

/// The name of the method with this number; GET where there is none.
pub open spec fn method_text(m: i32) -> Seq<char> {
    if m == 1 {
        "POST"@
    } else if m == 2 {
        "PUT"@
    } else if m == 3 {
        "PATCH"@
    } else if m == 4 {
        "DELETE"@
    } else if m == 5 {
        "HEAD"@
    } else {
        "GET"@
    }
}

/// The action with this number; backing off where there is none.
pub open spec fn action_of(n: i32) -> RlAction {
    if n == 0 {
        RlAction::Continue
    } else if n == 2 {
        RlAction::Abort
    } else {
        RlAction::Backoff
    }
}

/// Why an assignment is refused, if it is: it names no target, or its target's
/// URL cannot be read.
pub open spec fn assignment_refusal(a: Assignment) -> Option<Seq<char>> {
    match a.target {
        None => Some("Assignment.target required"@),
        Some(t) => match target::uri_parts(t.url@) {
            Ok(_) => None,
            Err(e) => Some("bad target.url: "@ + e),
        },
    }
}

/// The run's inline assertions are those of the assignment.
pub open spec fn asserts(a: Option<AssertSpec>, spec: RunSpec) -> bool {
    match a {
        Some(s) => {
            &&& spec.expected_status@ == Seq::new(
                s.expected_status@.len(),
                |i: int| s.expected_status@[i] as u16,
            )
            &&& spec.max_latency_us == match s.max_latency_us {
                Some(v) => Some(v as u64),
                None => None,
            }
            &&& spec.min_body_bytes == match s.min_body_bytes {
                Some(v) => Some(v as u64),
                None => None,
            }
            &&& spec.max_body_bytes == match s.max_body_bytes {
                Some(v) => Some(v as u64),
                None => None,
            }
            &&& response::text_view(spec.content_type) == response::text_view(s.content_type)
        },
        None => {
            &&& spec.expected_status@.len() == 0
            &&& spec.max_latency_us is None
            &&& spec.min_body_bytes is None
            &&& spec.max_body_bytes is None
            &&& spec.content_type is None
        },
    }
}

/// The run's rate-limit policy is that of the assignment; backing off, with the
/// default cap and the onset recorded, where the assignment sets none.
pub open spec fn limits(p: Option<RateLimitPolicy>, spec: RunSpec) -> bool {
    match p {
        Some(p) => {
            &&& spec.rate_limit_action == action_of(p.action)
            &&& spec.max_backoff_ms == if p.max_backoff_ms > 0 {
                p.max_backoff_ms as int
            } else {
                DEFAULT_MAX_BACKOFF_MS as int
            }
            &&& spec.record_onset == p.record_onset
        },
        None => {
            &&& spec.rate_limit_action == RlAction::Backoff
            &&& spec.max_backoff_ms == DEFAULT_MAX_BACKOFF_MS
            &&& spec.record_onset
        },
    }
}

/// `spec` is the run that the assignment asks for.
pub open spec fn runs(a: Assignment, spec: RunSpec) -> bool {
    a.target matches Some(t) && {
        &&& target::uri_parts(t.url@) == Ok::<target::UriView, Seq<char>>(spec.url@)
        &&& runs_at(a, t, spec)
    }
}

/// `spec` is the run that the assignment asks for, its URL apart.
pub open spec fn runs_at(a: Assignment, t: Target, spec: RunSpec) -> bool {
    &&& spec.method@ == method_text(t.method)
    &&& text::pairs(spec.headers@) == text::pairs(t.headers@)
    &&& spec.timeout_us == timeout_us_of(t.timeout_ms)
    &&& spec.target_rps == a.throughput
    &&& spec.duration_s == if a.duration_s > 0 {
        a.duration_s as int
    } else {
        0
    }
    &&& spec.connections == if a.connections > 1 {
        a.connections as int
    } else {
        1
    }
    &&& spec.keepalive == a.keepalive
    &&& asserts(a.assertions, spec)
    &&& limits(a.rate_limit_policy, spec)
    &&& !spec.ramp
    &&& spec.sample_every_n == 0
    &&& spec.max_sampled_body_bytes == 0
}

/// The name of the method with this number; GET where there is none.
pub fn http_method_from_proto(m: i32) -> (s: String)
    ensures
        s@ == method_text(m),
{
    match HttpMethod::from_i32(m) {
        Some(HttpMethod::Post) => "POST".to_owned(),
        Some(HttpMethod::Put) => "PUT".to_owned(),
        Some(HttpMethod::Patch) => "PATCH".to_owned(),
        Some(HttpMethod::Delete) => "DELETE".to_owned(),
        Some(HttpMethod::Head) => "HEAD".to_owned(),
        _ => "GET".to_owned(),
    }
}

fn statuses(expected: &Vec<i32>) -> (v: Vec<u16>)
    ensures
        v@ == Seq::new(expected@.len(), |i: int| expected@[i] as u16),
{
    let mut v: Vec<u16> = Vec::new();
    for i in 0..expected.len()
        invariant
            v@ == Seq::new(i as nat, |k: int| expected@[k] as u16),
    {
        v.push(
            #[verifier::truncate]
            (expected[i] as u16),
        );
    }
    v
}

/// The run that an assignment asks for.
pub fn build_run_spec(a: &Assignment) -> (r: Result<RunSpec, String>)
    ensures
        r matches Ok(spec) ==> runs(*a, spec),
        r is Err <==> assignment_refusal(*a) is Some,
        r matches Err(e) ==> assignment_refusal(*a) == Some(e@),
{
    let t: &Target = match &a.target {
        Some(t) => t,
        None => return Err("Assignment.target required".to_owned()),
    };
    match target::parse_uri(&t.url) {
        Ok(url) => Ok(run_spec_at(a, t, url)),
        Err(e) => Err(text::joined("bad target.url: ", &e)),
    }
}

/// The run that an assignment with the target `t` asks for, once its URL is read.
pub fn run_spec_at(a: &Assignment, t: &Target, url: TargetUri) -> (spec: RunSpec)
    ensures
        runs_at(*a, *t, spec),
        spec.url == url,
{
    let timeout_us: u64 = if t.timeout_ms > 0 {
        t.timeout_ms as u64 * 1000
    } else {
        DEFAULT_TIMEOUT_MS * 1000
    };
    let mut spec: RunSpec = RunSpec {
        url,
        method: http_method_from_proto(t.method),
        headers: text::copy_pairs(&t.headers),
        target_rps: a.throughput,
        duration_s: if a.duration_s > 0 {
            a.duration_s as u64
        } else {
            0
        },
        keepalive: a.keepalive,
        connections: if a.connections > 1 {
            a.connections as usize
        } else {
            1
        },
        timeout_us,
        expected_status: Vec::new(),
        max_latency_us: None,
        min_body_bytes: None,
        max_body_bytes: None,
        content_type: None,
        ramp: false,
        sample_every_n: 0,
        max_sampled_body_bytes: 0,
        rate_limit_action: RlAction::Backoff,
        max_backoff_ms: DEFAULT_MAX_BACKOFF_MS,
        record_onset: true,
    };
    if let Some(s) = &a.assertions {
        spec.expected_status = statuses(&s.expected_status);
        spec.max_latency_us = match s.max_latency_us {
            Some(v) => Some(
                #[verifier::truncate]
                (v as u64),
            ),
            None => None,
        };
        spec.min_body_bytes = match s.min_body_bytes {
            Some(v) => Some(
                #[verifier::truncate]
                (v as u64),
            ),
            None => None,
        };
        spec.max_body_bytes = match s.max_body_bytes {
            Some(v) => Some(
                #[verifier::truncate]
                (v as u64),
            ),
            None => None,
        };
        spec.content_type = match &s.content_type {
            Some(c) => Some(c.clone()),
            None => None,
        };
    }
    if let Some(p) = &a.rate_limit_policy {
        spec.rate_limit_action = match RateLimitAction::from_i32(p.action) {
            Some(RateLimitAction::RlContinue) => RlAction::Continue,
            Some(RateLimitAction::RlAbort) => RlAction::Abort,
            _ => RlAction::Backoff,
        };
        spec.max_backoff_ms = if p.max_backoff_ms > 0 {
            p.max_backoff_ms as u64
        } else {
            DEFAULT_MAX_BACKOFF_MS
        };
        spec.record_onset = p.record_onset;
    }
    spec
}

/// A tick's bucket in a report, with the connections that failed and that timed out
/// meanwhile.
pub open spec fn reported_bucket(b: Bucket, health: Health) -> RpsBucket {
    RpsBucket {
        rps_lo: b.rps_lo,
        rps_hi: b.rps_hi,
        total: b.total,
        pass: b.pass,
        fail_transport: health.conn_errors,
        fail_status: b.fail_status,
        fail_latency: b.fail_latency,
        fail_size: b.fail_size,
        fail_content_type: b.fail_content_type,
        rate_limited: b.rate_limited,
        timeout: health.timeouts,
    }
}

/// What the bucket at `at` carries of a second's failures: the first one carries
/// them all.
pub open spec fn health_at(t: Tick, at: int) -> Health {
    if at == 0 {
        t.health
    } else {
        Health::fine()
    }
}

/// `p` carries nothing that workers do not measure yet.
pub open spec fn unmeasured(p: Partial) -> bool {
    &&& p.ttfb_hist@.len() == 0
    &&& p.this_tick_corrected@.len() == 0
    &&& p.in_flight == 0
    &&& p.bytes_sent == 0
    &&& p.bytes_recv == 0
    &&& p.sampled@.len() == 0
}

/// `p` reports the tick `t`.
pub open spec fn reports_tick(
    p: Partial,
    worker_id: Seq<char>,
    tick_n: u64,
    is_final: bool,
    t: Tick,
) -> bool {
    &&& p.worker_id@ == worker_id
    &&& p.tick == tick_n
    &&& p.is_final == is_final
    &&& p.corrected_hist@ == t.corrected_hist_v2@
    &&& p.uncorrected_hist@ == t.uncorrected_hist_v2@
    &&& p.buckets@ == Seq::new(
        t.buckets@.len(),
        |i: int| reported_bucket(t.buckets@[i], health_at(t, i)),
    )
    &&& p.health() == t.health
    &&& p.offered_rps == t.achieved_rps_1s
    &&& p.achieved_rps == t.achieved_rps_1s
    &&& p.rate_limit == Some(
        RateLimit {
            count_this_tick: t.this_tick.rate_limited,
            first_429_mrps: t.rate_limit_onset_mrps,
            last_retry_after_ms: t.last_retry_after_ms,
            backoff_us_total: t.backoff_us_total,
        },
    )
    &&& unmeasured(p)
}

/// `p` closes a worker's stream.
pub open spec fn closes(p: Partial, worker_id: Seq<char>, tick_n: u64) -> bool {
    &&& p.worker_id@ == worker_id
    &&& p.tick == tick_n
    &&& p.is_final
    &&& p.corrected_hist@.len() == 0
    &&& p.uncorrected_hist@.len() == 0
    &&& p.buckets@.len() == 0
    &&& p.offered_rps == 0
    &&& p.achieved_rps == 0
    &&& p.rate_limit is None
    &&& p.health() == Health::fine()
    &&& unmeasured(p)
}

/// The report that closes a worker's stream.
pub fn empty_final_partial(worker_id: &str, tick_n: u64) -> (p: Partial)
    ensures
        closes(p, worker_id@, tick_n),
{
    Partial {
        worker_id: worker_id.to_owned(),
        tick: tick_n,
        is_final: true,
        corrected_hist: Vec::new(),
        uncorrected_hist: Vec::new(),
        ttfb_hist: Vec::new(),
        this_tick_corrected: Vec::new(),
        buckets: Vec::new(),
        offered_rps: 0,
        achieved_rps: 0,
        sched_slip_us: 0,
        client_saturated: false,
        in_flight: 0,
        conn_errors: 0,
        timeouts: 0,
        rate_limit: None,
        bytes_sent: 0,
        bytes_recv: 0,
        sampled: Vec::new(),
    }
}

/// The report of the tick `t`.
pub fn partial_from_tick(worker_id: &str, tick_n: u64, is_final: bool, t: &Tick) -> (p: Partial)
    ensures
        reports_tick(p, worker_id@, tick_n, is_final, *t),
{
    let mut buckets: Vec<RpsBucket> = Vec::new();
    for i in 0..t.buckets.len()
        invariant
            buckets@ == Seq::new(
                i as nat,
                |k: int| reported_bucket(t.buckets@[k], health_at(*t, k)),
            ),
    {
        let b: Bucket = t.buckets[i];
        let health: Health = if i == 0 {
            t.health
        } else {
            Health::new()
        };
        buckets.push(
            RpsBucket {
                rps_lo: b.rps_lo,
                rps_hi: b.rps_hi,
                total: b.total,
                pass: b.pass,
                fail_transport: health.conn_errors,
                fail_status: b.fail_status,
                fail_latency: b.fail_latency,
                fail_size: b.fail_size,
                fail_content_type: b.fail_content_type,
                rate_limited: b.rate_limited,
                timeout: health.timeouts,
            },
        );
    }
    Partial {
        worker_id: worker_id.to_owned(),
        tick: tick_n,
        is_final,
        corrected_hist: t.corrected_hist_v2.clone(),
        uncorrected_hist: t.uncorrected_hist_v2.clone(),
        ttfb_hist: Vec::new(),
        this_tick_corrected: Vec::new(),
        buckets,
        offered_rps: t.achieved_rps_1s,
        achieved_rps: t.achieved_rps_1s,
        sched_slip_us: t.health.sched_slip_us,
        client_saturated: t.health.client_saturated,
        in_flight: 0,
        conn_errors: t.health.conn_errors,
        timeouts: t.health.timeouts,
        rate_limit: Some(
            RateLimit {
                count_this_tick: t.this_tick.rate_limited,
                first_429_mrps: t.rate_limit_onset_mrps,
                last_retry_after_ms: t.last_retry_after_ms,
                backoff_us_total: t.backoff_us_total,
            },
        ),
        bytes_sent: 0,
        bytes_recv: 0,
        sampled: Vec::new(),
    }
}

/// The events of one slice, in order: one that it has started, one for each
/// tick, numbered from 1, and one that closes the stream.
#[derive(Debug)]
pub struct SliceStream {
    pub worker_id: String,
    /// Ticks reported so far.
    pub sent: u64,
}

/// `e` tells that a slice started, and how long after the run's epoch.
pub open spec fn starts(e: WorkerEvent, actual_start_unix_us: i64, epoch_unix_us: i64) -> bool {
    e == WorkerEvent::Started(
        Started {
            actual_start_unix_us,
            skew_us: (actual_start_unix_us - epoch_unix_us) as i64,
        },
    )
}

impl SliceStream {
    /// `e` is the event of the next tick, and `after` the stream from then on.
    pub open spec fn sends(self, t: Tick, e: WorkerEvent, after: SliceStream) -> bool {
        &&& after.worker_id@ == self.worker_id@
        &&& after.sent == self.sent + 1
        &&& e matches WorkerEvent::Partial(p) && reports_tick(
            p,
            self.worker_id@,
            (self.sent + 1) as u64,
            false,
            t,
        )
    }

    /// `e` is the event that closes the stream.
    pub open spec fn ends(self, e: WorkerEvent) -> bool {
        e matches WorkerEvent::Partial(p) && closes(
            p,
            self.worker_id@,
            (self.sent + 1) as u64,
        )
    }

    /// The slice has started, `skew_us` after the run's epoch.
    pub fn started(&self, actual_start_unix_us: i64, epoch_unix_us: i64) -> (e: WorkerEvent)
        requires
            i64::MIN <= actual_start_unix_us - epoch_unix_us <= i64::MAX,
        ensures
            starts(e, actual_start_unix_us, epoch_unix_us),
    {
        WorkerEvent::Started(
            Started { actual_start_unix_us, skew_us: actual_start_unix_us - epoch_unix_us },
        )
    }

    /// The event of the next tick.
    pub fn tick(&mut self, t: &Tick) -> (e: WorkerEvent)
        requires
            old(self).sent < u64::MAX,
        ensures
            old(self).sends(*t, e, *final(self)),
    {
        self.sent = self.sent + 1;
        WorkerEvent::Partial(partial_from_tick(&self.worker_id, self.sent, false, t))
    }

    /// The event that closes the stream.
    pub fn close(&self) -> (e: WorkerEvent)
        requires
            self.sent < u64::MAX,
        ensures
            self.ends(e),
    {
        WorkerEvent::Partial(empty_final_partial(&self.worker_id, self.sent + 1))
    }
}

/// A report loses nothing of its tick: its buckets carry exactly the tick's
/// counts, its snapshots are the tick's, and it says of the worker what the run
/// noted.
pub proof fn law_reports_carry_the_tick(
    p: Partial,
    worker_id: Seq<char>,
    tick_n: u64,
    t: Tick,
    elapsed_s: u64,
    prev: crate::tally::Tally,
    live: connection::LiveRun,
)
    requires
        t.ticks(elapsed_s, prev, live),
        reports_tick(p, worker_id, tick_n, false, t),
    ensures
        p.counts() == run::counted_since(live.tally, prev)@,
        p.corrected_hist@ == t.corrected_hist_v2@,
        p.uncorrected_hist@ == t.uncorrected_hist_v2@,
        p.health() == live.health,
        p.buckets@[0].fail_transport == live.health.conn_errors,
        p.buckets@[0].timeout == live.health.timeouts,
{
    let all = Seq::new(p.buckets@.len(), |i: int| p.buckets@[i].counts());
    assert(t.buckets@.len() == 1);
    assert(p.buckets@[0] == reported_bucket(t.buckets@[0], t.health));
    assert(all.drop_last() =~= Seq::<crate::tally::Counts>::empty());
    assert(crate::tally::Counts::sum(all.drop_last()) == crate::tally::Counts::zero());
}

/// A worker runs its assignment as it is given: a time limit in milliseconds, half a
/// minute where none is set; seconds and connections as told, and never fewer than
/// one connection; and the rate that was assigned, at a constant pace.
pub proof fn law_an_assignment_is_run_as_given(a: Assignment, t: Target, spec: RunSpec)
    requires
        runs_at(a, t, spec),
    ensures
        t.timeout_ms > 0 ==> spec.timeout_us == t.timeout_ms * 1000,
        t.timeout_ms <= 0 ==> spec.timeout_us == 30_000_000,
        spec.target_rps.requests == a.throughput.requests,
        spec.target_rps.per_us == a.throughput.per_us,
        a.duration_s >= 0 ==> spec.duration_s == a.duration_s,
        a.duration_s < 0 ==> spec.duration_s == 0,
        a.connections >= 1 ==> spec.connections == a.connections,
        a.connections < 1 ==> spec.connections == 1,
        spec.keepalive == a.keepalive,
        !spec.ramp,
        spec.sample_every_n == 0,
        t.method == 0 ==> spec.method@ == "GET"@,
        t.method == 1 ==> spec.method@ == "POST"@,
        t.method == 2 ==> spec.method@ == "PUT"@,
        t.method == 3 ==> spec.method@ == "PATCH"@,
        t.method == 4 ==> spec.method@ == "DELETE"@,
        t.method == 5 ==> spec.method@ == "HEAD"@,
        t.method < 0 || t.method > 5 ==> spec.method@ == "GET"@,
        text::pairs(spec.headers@) == text::pairs(t.headers@),
{
}

/// A worker keeps to the rate-limit policy that it is given, and backs off for up to
/// five seconds, noting the onset, where it is given none.
pub proof fn law_a_worker_keeps_to_its_policy(a: Assignment, t: Target, spec: RunSpec)
    requires
        runs_at(a, t, spec),
    ensures
        a.rate_limit_policy matches Some(p) ==> {
            &&& p.action == 0 ==> spec.rate_limit_action == RlAction::Continue
            &&& p.action == 1 ==> spec.rate_limit_action == RlAction::Backoff
            &&& p.action == 2 ==> spec.rate_limit_action == RlAction::Abort
            &&& p.action < 0 || p.action > 2 ==> spec.rate_limit_action == RlAction::Backoff
            &&& p.max_backoff_ms > 0 ==> spec.max_backoff_ms == p.max_backoff_ms
            &&& p.max_backoff_ms <= 0 ==> spec.max_backoff_ms == 5_000
            &&& spec.record_onset == p.record_onset
        },
        a.rate_limit_policy is None ==> {
            &&& spec.rate_limit_action == RlAction::Backoff
            &&& spec.max_backoff_ms == 5_000
            &&& spec.record_onset
        },
        a.assertions matches Some(s) ==> {
            &&& spec.expected_status@.len() == s.expected_status@.len()
            &&& forall|i: int|
                0 <= i < s.expected_status@.len() && 0 <= s.expected_status@[i] <= u16::MAX
                    ==> #[trigger] spec.expected_status@[i] as int == s.expected_status@[i]
            &&& s.max_latency_us matches Some(v) ==> (v >= 0 ==> spec.max_latency_us == Some(
                v as u64,
            ))
            &&& s.max_latency_us is None ==> spec.max_latency_us is None
            &&& s.min_body_bytes matches Some(v) ==> (v >= 0 ==> spec.min_body_bytes == Some(
                v as u64,
            ))
            &&& s.max_body_bytes matches Some(v) ==> (v >= 0 ==> spec.max_body_bytes == Some(
                v as u64,
            ))
            &&& response::text_view(spec.content_type) == response::text_view(s.content_type)
        },
        a.assertions is None ==> {
            &&& spec.expected_status@.len() == 0
            &&& spec.max_latency_us is None
            &&& spec.min_body_bytes is None
            &&& spec.max_body_bytes is None
            &&& spec.content_type is None
        },
{
}

/// An assignment without a target, or with one whose URL cannot be read, is refused,
/// and no other.
pub proof fn law_an_assignment_needs_a_readable_target(a: Assignment)
    ensures
        assignment_refusal(a) is Some <==> a.target is None || target::uri_parts(
            a.target->0.url@,
        ) is Err,
        a.target is None ==> assignment_refusal(a) == Some("Assignment.target required"@),
{
}

/// A report gives each figure of its tick under its own name: bucket by bucket the
/// same edges and the same counts, the rate that was achieved, each snapshot as the
/// kind it is, and what was learned of the rate limit.
pub proof fn law_a_report_gives_each_figure_its_own_name(
    p: Partial,
    worker_id: Seq<char>,
    tick_n: u64,
    is_final: bool,
    t: Tick,
    i: int,
)
    requires
        reports_tick(p, worker_id, tick_n, is_final, t),
        0 <= i < t.buckets@.len(),
    ensures
        p.worker_id@ == worker_id,
        p.tick == tick_n,
        p.is_final == is_final,
        p.corrected_hist@ == t.corrected_hist_v2@,
        p.uncorrected_hist@ == t.uncorrected_hist_v2@,
        p.achieved_rps == t.achieved_rps_1s,
        p.buckets@.len() == t.buckets@.len(),
        p.buckets@[i].rps_lo == t.buckets@[i].rps_lo,
        p.buckets@[i].rps_hi == t.buckets@[i].rps_hi,
        p.buckets@[i].total == t.buckets@[i].total,
        p.buckets@[i].pass == t.buckets@[i].pass,
        p.buckets@[i].fail_status == t.buckets@[i].fail_status,
        p.buckets@[i].fail_latency == t.buckets@[i].fail_latency,
        p.buckets@[i].fail_size == t.buckets@[i].fail_size,
        p.buckets@[i].fail_content_type == t.buckets@[i].fail_content_type,
        p.buckets@[i].rate_limited == t.buckets@[i].rate_limited,
        p.buckets@[i].fail_transport == if i == 0 {
            t.health.conn_errors
        } else {
            0
        },
        p.buckets@[i].timeout == if i == 0 {
            t.health.timeouts
        } else {
            0
        },
        p.sched_slip_us == t.health.sched_slip_us,
        p.client_saturated == t.health.client_saturated,
        p.conn_errors == t.health.conn_errors,
        p.timeouts == t.health.timeouts,
        p.rate_limit matches Some(rl) && {
            &&& rl.count_this_tick == t.this_tick.rate_limited
            &&& rl.first_429_mrps == t.rate_limit_onset_mrps
            &&& rl.last_retry_after_ms == t.last_retry_after_ms
            &&& rl.backoff_us_total == t.backoff_us_total
        },
{
    assert(p.buckets@[i] == reported_bucket(t.buckets@[i], health_at(t, i)));
    assert(p.health().sched_slip_us == p.sched_slip_us);
    assert(p.health().client_saturated == p.client_saturated);
    assert(p.health().conn_errors == p.conn_errors);
    assert(p.health().timeouts == p.timeouts);
}

/// The reports of a slice are numbered 1, 2, 3 and so on under the worker's own id,
/// none of them closing the stream; the one that closes it comes next in the count,
/// and counts nothing itself.
pub proof fn law_reports_are_numbered_in_order(
    streams: Seq<SliceStream>,
    ticks: Seq<Tick>,
    events: Seq<WorkerEvent>,
    last: WorkerEvent,
)
    requires
        streams.len() == ticks.len() + 1,
        events.len() == ticks.len(),
        streams.first().sent == 0,
        forall|i: int|
            0 <= i < ticks.len() ==> streams[i].sends(
                #[trigger] ticks[i],
                events[i],
                streams[i + 1],
            ),
        streams.last().ends(last),
        ticks.len() < u64::MAX,
    ensures
        forall|i: int|
            0 <= i < events.len() ==> ((#[trigger] events[i]) matches WorkerEvent::Partial(p) && {
                &&& p.tick == i + 1
                &&& !p.is_final
                &&& p.worker_id@ == streams.first().worker_id@
            }),
        last matches WorkerEvent::Partial(p) && {
            &&& p.tick == ticks.len() + 1
            &&& p.is_final
            &&& p.worker_id@ == streams.first().worker_id@
            &&& p.buckets@.len() == 0
            &&& p.corrected_hist@.len() == 0
            &&& p.uncorrected_hist@.len() == 0
            &&& p.rate_limit is None
        },
{
    lemma_sent(streams, ticks, events, ticks.len() as int);
    assert forall|i: int| 0 <= i < events.len() implies ((
    #[trigger] events[i]) matches WorkerEvent::Partial(p) && {
        &&& p.tick == i + 1
        &&& !p.is_final
        &&& p.worker_id@ == streams.first().worker_id@
    }) by {
        lemma_sent(streams, ticks, events, i);
        assert(streams[i].sends(ticks[i], events[i], streams[i + 1]));
    }
}

proof fn lemma_sent(
    streams: Seq<SliceStream>,
    ticks: Seq<Tick>,
    events: Seq<WorkerEvent>,
    i: int,
)
    requires
        streams.len() == ticks.len() + 1,
        streams.first().sent == 0,
        forall|i: int|
            0 <= i < ticks.len() ==> streams[i].sends(
                #[trigger] ticks[i],
                events[i],
                streams[i + 1],
            ),
        0 <= i <= ticks.len(),
    ensures
        streams[i].sent == i,
        streams[i].worker_id@ == streams.first().worker_id@,
    decreases i,
{
    if i > 0 {
        lemma_sent(streams, ticks, events, i - 1);
        assert(streams[i - 1].sends(ticks[i - 1], events[i - 1], streams[i]));
    }
}

/// The skew is what the start lies after the epoch.
pub proof fn law_the_skew_leads_from_the_epoch_to_the_start(
    e: WorkerEvent,
    actual_start_unix_us: i64,
    epoch_unix_us: i64,
)
    requires
        starts(e, actual_start_unix_us, epoch_unix_us),
        i64::MIN <= actual_start_unix_us - epoch_unix_us <= i64::MAX,
    ensures
        e matches WorkerEvent::Started(s) && s.actual_start_unix_us == actual_start_unix_us
            && epoch_unix_us + s.skew_us == actual_start_unix_us,
{
}

/// A worker's latencies reach the fleet's tick unchanged: where a report carries a
/// tick of a run that has recorded these latencies, its corrected snapshot reads back
/// as those measured from the slots and its uncorrected one as those measured from
/// the sends.
pub proof fn law_a_report_carries_latencies_from_the_slots(
    p: Partial,
    worker_id: Seq<char>,
    tick_n: u64,
    t: Tick,
    elapsed_s: u64,
    prev: crate::tally::Tally,
    live: connection::LiveRun,
    from_slots: Seq<u64>,
    from_sends: Seq<u64>,
)
    requires
        t.ticks(elapsed_s, prev, live),
        reports_tick(p, worker_id, tick_n, false, t),
        crate::hist::holds(crate::hist::hist_counts(live.histos.corrected), from_slots),
        crate::hist::holds(crate::hist::hist_counts(live.histos.uncorrected), from_sends),
        from_slots.len() <= i64::MAX,
        from_sends.len() <= i64::MAX,
    ensures
        crate::hist::v2_read(p.corrected_hist@) matches Some((_, counts)) && crate::hist::holds(
            counts,
            from_slots,
        ),
        crate::hist::v2_read(p.uncorrected_hist@) matches Some((_, counts)) && crate::hist::holds(
            counts,
            from_sends,
        ),
{
    run::law_a_tick_shows_latencies_from_the_slots(
        t,
        elapsed_s,
        prev,
        live,
        from_slots,
        from_sends,
    );
}

} // verus!

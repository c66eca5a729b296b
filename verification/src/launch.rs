//! Starting workers: what their arguments become, how they find the coordinator,
//! and what they tell the control plane at the end.

use vstd::prelude::*;
use vstd::string::*;

use crate::cliff::{self, BucketAccum};
use crate::coordinator::{self, CONTRACT_VERSION};
use crate::hist;
use crate::proto::WorkerInfo;
use crate::rate::Rate;
use crate::run::RunReport;
use crate::target::{self, TargetUri};
use crate::worker::{self, RlAction, RunSpec};
use crate::{response, text};

verus! {

/// The arguments of a worker that runs on its own.
#[derive(Debug)]
pub struct WorkerArgs {
    pub url: String,
    pub method: String,
    pub rate: Rate,
    pub duration_s: u64,
    pub connections: usize,
    pub timeout_s: u64,
    pub no_keepalive: bool,
    pub expected_status: Vec<u16>,
    pub ramp: bool,
    pub max_latency_ms: Option<u64>,
    pub min_body_bytes: Option<u64>,
    pub max_body_bytes: Option<u64>,
    pub content_type: Option<String>,
    pub sample_every_n: u32,
    pub max_sampled_body_bytes: u32,
    pub rate_limit_action: String,
    pub max_backoff_ms: u64,
}

/// Why a worker's arguments make no run.
#[derive(Debug)]
pub enum ArgsError {
    /// The URL cannot be read.
    BadUrl(String),
    /// The method's name is not one.
    BadMethod,
}

/// The action with this name, in any case; backing off where there is none.
pub open spec fn action_named(name: Seq<char>) -> RlAction {
    if text::lowered(name) == "continue"@ {
        RlAction::Continue
    } else if text::lowered(name) == "abort"@ {
        RlAction::Abort
    } else {
        RlAction::Backoff
    }
}

/// The action with this name.
pub fn parse_action(name: &str) -> (a: RlAction)
    ensures
        a == action_named(name@),
{
    let low: String = text::to_lower(name);
    if text::same(&low, "continue") {
        RlAction::Continue
    } else if text::same(&low, "abort") {
        RlAction::Abort
    } else {
        RlAction::Backoff
    }
}

impl WorkerArgs {
    /// `spec` is the run that the arguments describe.
    pub open spec fn describes(self, spec: RunSpec) -> bool {
        &&& target::uri_parts(self.url@) == Ok::<target::UriView, Seq<char>>(spec.url@)
        &&& self.describes_at(spec)
    }

    /// `spec` is the run that the arguments describe, its URL apart.
    pub open spec fn describes_at(self, spec: RunSpec) -> bool {
        &&& spec.method@ == text::uppered(self.method@)
        &&& spec.target_rps == self.rate
        &&& spec.duration_s == self.duration_s
        &&& spec.keepalive == !self.no_keepalive
        &&& spec.connections == self.connections
        &&& spec.timeout_us == worker::seconds_us(self.timeout_s)
        &&& spec.expected_status@ == self.expected_status@
        &&& spec.max_latency_us == match self.max_latency_ms {
            Some(ms) => Some((ms * 1000) as u64),
            None => None,
        }
        &&& spec.min_body_bytes == self.min_body_bytes
        &&& spec.max_body_bytes == self.max_body_bytes
        &&& response::text_view(spec.content_type) == response::text_view(self.content_type)
        &&& spec.headers@.len() == 0
        &&& spec.ramp == self.ramp
        &&& spec.sample_every_n == self.sample_every_n
        &&& spec.max_sampled_body_bytes == self.max_sampled_body_bytes
        &&& spec.rate_limit_action == action_named(self.rate_limit_action@)
        &&& spec.max_backoff_ms == self.max_backoff_ms
        &&& spec.record_onset
    }

    /// The run that the arguments describe.
    pub fn to_spec(&self) -> (r: Result<RunSpec, ArgsError>)
        requires
            self.max_latency_ms matches Some(ms) ==> ms * 1000 <= u64::MAX,
        ensures
            r matches Ok(spec) ==> self.describes(spec),
            r is Ok <==> target::uri_parts(self.url@) is Ok && target::is_method(
                text::uppered(self.method@),
            ),
            r matches Err(ArgsError::BadUrl(e)) ==> target::uri_parts(self.url@) == Err::<
                target::UriView,
                Seq<char>,
            >(e@),
            r matches Err(ArgsError::BadMethod) ==> target::uri_parts(self.url@) is Ok,
    {
        match target::parse_uri(&self.url) {
            Ok(url) => self.spec_at(url),
            Err(e) => Err(ArgsError::BadUrl(e)),
        }
    }

    /// The run that the arguments describe, once their URL is read.
    pub fn spec_at(&self, url: TargetUri) -> (r: Result<RunSpec, ArgsError>)
        requires
            self.max_latency_ms matches Some(ms) ==> ms * 1000 <= u64::MAX,
        ensures
            r is Ok <==> target::is_method(text::uppered(self.method@)),
            r matches Ok(spec) ==> self.describes_at(spec) && spec.url == url,
            r matches Err(e) ==> e is BadMethod,
    {
        let method: String = match target::parse_method(&text::to_upper(&self.method)) {
            Some(m) => m,
            None => return Err(ArgsError::BadMethod),
        };
        Ok(
            RunSpec {
                url,
                method,
                headers: Vec::new(),
                target_rps: self.rate,
                duration_s: self.duration_s,
                keepalive: !self.no_keepalive,
                connections: self.connections,
                timeout_us: worker::seconds_to_us(self.timeout_s),
                expected_status: self.expected_status.clone(),
                max_latency_us: match self.max_latency_ms {
                    Some(ms) => Some(ms * 1000),
                    None => None,
                },
                min_body_bytes: self.min_body_bytes,
                max_body_bytes: self.max_body_bytes,
                content_type: match &self.content_type {
                    Some(c) => Some(c.clone()),
                    None => None,
                },
                ramp: self.ramp,
                sample_every_n: self.sample_every_n,
                max_sampled_body_bytes: self.max_sampled_body_bytes,
                rate_limit_action: parse_action(&self.rate_limit_action),
                max_backoff_ms: self.max_backoff_ms,
                record_onset: true,
            },
        )
    }
}

/// What the control plane keeps about a run for its workers.
pub open spec fn run_path(base: Seq<char>, run_id: Seq<char>) -> Seq<char> {
    text::without_trailing(base, '/') + "/v1/_internal/runs/"@ + run_id
}

/// Where a worker sends the ticks of a run.
pub fn tick_url(base: &str, run_id: &str) -> (s: String)
    ensures
        s@ == run_path(base@, run_id@) + "/tick"@,
{
    let mut s: String = text::trim_end(base, '/');
    s.append("/v1/_internal/runs/");
    s.append(run_id);
    s.append("/tick");
    s
}

/// Where a worker sends the final figures of a run.
pub fn finalize_url(base: &str, run_id: &str) -> (s: String)
    ensures
        s@ == run_path(base@, run_id@) + "/finalize"@,
{
    let mut s: String = text::trim_end(base, '/');
    s.append("/v1/_internal/runs/");
    s.append(run_id);
    s.append("/finalize");
    s
}

/// The statuses, in decimal, with commas between them.
pub open spec fn comma_list(statuses: Seq<u16>) -> Seq<char>
    decreases statuses.len(),
{
    if statuses.len() == 0 {
        Seq::empty()
    } else if statuses.len() == 1 {
        text::decimal(statuses[0] as nat)
    } else {
        comma_list(statuses.drop_last()) + ","@ + text::decimal(statuses.last() as nat)
    }
}

/// What is expected of a response's status, for people to read.
pub open spec fn label_of(statuses: Seq<u16>) -> Seq<char> {
    if statuses.len() == 0 {
        "any 2xx"@
    } else {
        comma_list(statuses)
    }
}

/// What is expected of a response's status, for people to read.
pub fn expected_label(statuses: &Vec<u16>) -> (s: String)
    ensures
        s@ == label_of(statuses@),
{
    if statuses.len() == 0 {
        return "any 2xx".to_owned();
    }
    let mut s: String = text::decimal_text(statuses[0] as u64);
    let mut i: usize = 1;
    assert(statuses@.take(1).len() == 1);
    while i < statuses.len()
        invariant
            1 <= i <= statuses@.len(),
            s@ == comma_list(statuses@.take(i as int)),
        decreases statuses.len() - i,
    {
        assert(statuses@.take(i + 1).drop_last() =~= statuses@.take(i as int));
        s.append(",");
        s.append(text::decimal_text(statuses[i] as u64).as_str());
        i = i + 1;
    }
    assert(statuses@.take(statuses@.len() as int) =~= statuses@);
    s
}

/// The final figures of a worker's own run.
#[derive(Debug)]
pub struct FinalizeRun {
    pub effective_rps: Rate,
    pub p50_us: i64,
    pub p95_us: i64,
    pub p99_us: i64,
    pub p999_us: i64,
    pub total_requests: i64,
    pub total_pass: i64,
    pub cliff_rps: Option<u64>,
    pub status: String,
    pub corrected_hist_b64: String,
    pub uncorrected_hist_b64: String,
    pub rate_limited: i64,
    /// In thousandths.
    pub rate_limit_onset_mrps: Option<u64>,
    pub backoff_us_total: i64,
}

/// `s` is the base64 text of the snapshot of `h`.
pub open spec fn snapshot_b64(s: Seq<char>, h: hist::LatencyHistogram) -> bool {
    exists|bytes: Seq<u8>| #[trigger]
        hist::is_snapshot(bytes, hist::hist_layout(h), hist::hist_counts(h)) && s
            == text::base64_text(bytes)
}

impl FinalizeRun {
    /// The final figures of a run from its report and its buckets.
    pub open spec fn finalizes(self, report: RunReport, accum: BucketAccum) -> bool {
        &&& self.effective_rps == report.achieved_rps
        &&& self.p50_us == report.corrected.p50_us as i64
        &&& self.p95_us == report.corrected.p95_us as i64
        &&& self.p99_us == report.corrected.p99_us as i64
        &&& self.p999_us == report.corrected.p999_us as i64
        &&& self.total_requests == report.completed as i64
        &&& self.total_pass == report.pass as i64
        &&& cliff::is_cliff(
            accum@,
            cliff::CLIFF_THRESHOLD_PCT,
            cliff::CLIFF_MIN_SAMPLES,
            self.cliff_rps,
        )
        &&& self.status@ == "completed"@
        &&& snapshot_b64(self.corrected_hist_b64@, report.histos.corrected)
        &&& snapshot_b64(self.uncorrected_hist_b64@, report.histos.uncorrected)
        &&& self.rate_limited == report.rate_limited as i64
        &&& self.rate_limit_onset_mrps == report.first_429_mrps
        &&& self.backoff_us_total == report.backoff_us_total as i64
    }
}

/// The final figures of a run from its report and its buckets.
pub fn finalize(report: &RunReport, accum: &BucketAccum) -> (f: FinalizeRun)
    requires
        accum.wf(),
    ensures
        f.finalizes(*report, *accum),
{
    let corrected: Vec<u8> = hist::serialize_v2(&report.histos.corrected);
    let uncorrected: Vec<u8> = hist::serialize_v2(&report.histos.uncorrected);
    FinalizeRun {
        effective_rps: report.achieved_rps,
        p50_us: #[verifier::truncate]
        (report.corrected.p50_us as i64),
        p95_us: #[verifier::truncate]
        (report.corrected.p95_us as i64),
        p99_us: #[verifier::truncate]
        (report.corrected.p99_us as i64),
        p999_us: #[verifier::truncate]
        (report.corrected.p999_us as i64),
        total_requests: #[verifier::truncate]
        (report.completed as i64),
        total_pass: #[verifier::truncate]
        (report.pass as i64),
        cliff_rps: accum.detect_cliff_rps(cliff::CLIFF_THRESHOLD_PCT, cliff::CLIFF_MIN_SAMPLES),
        status: "completed".to_owned(),
        corrected_hist_b64: text::to_base64(corrected.as_slice()),
        uncorrected_hist_b64: text::to_base64(uncorrected.as_slice()),
        rate_limited: #[verifier::truncate]
        (report.rate_limited as i64),
        rate_limit_onset_mrps: report.first_429_mrps,
        backoff_us_total: #[verifier::truncate]
        (report.backoff_us_total as i64),
    }
}

/// Attempts to register before a worker gives up.
pub const MAX_ATTEMPTS: u32 = 30;

/// Wait after the first failed attempt.
pub const FIRST_DELAY_MS: u64 = 200;

/// Longest wait between attempts.
pub const MAX_DELAY_MS: u64 = 5_000;

/// A worker's attempts to register with the coordinator.
#[derive(Debug, Clone, Copy, PartialEq, Eq, Structural)]
pub struct RegisterRetry {
    /// Attempts that failed.
    pub attempts: u32,
    /// The wait after the next failure.
    pub delay_ms: u64,
}

/// What to do after an attempt to register.
#[derive(Debug, Clone, Copy, PartialEq, Eq, Structural)]
pub enum RetryStep {
    /// Try again after this wait.
    RetryAfter { delay_ms: u64 },
    /// Give up after so many attempts.
    GiveUp { attempts: u32 },
}

/// The wait after the `n`-th failure, the first being the 0th: doubling from one
/// to the next, up to a limit.
pub open spec fn delay_after(n: nat) -> nat
    decreases n,
{
    if n == 0 {
        FIRST_DELAY_MS as nat
    } else {
        let doubled = 2 * delay_after((n - 1) as nat);
        if doubled <= MAX_DELAY_MS {
            doubled
        } else {
            MAX_DELAY_MS as nat
        }
    }
}

impl RegisterRetry {
    pub open spec fn wf(self) -> bool {
        &&& self.attempts < MAX_ATTEMPTS
        &&& self.delay_ms == delay_after(self.attempts as nat)
        &&& self.delay_ms <= MAX_DELAY_MS
    }

    /// What to do after one more attempt failed, and the attempts from then on.
    pub open spec fn retries(self, step: RetryStep, after: RegisterRetry) -> bool {
        &&& step == if self.attempts + 1 < MAX_ATTEMPTS {
            RetryStep::RetryAfter { delay_ms: delay_after(self.attempts as nat) as u64 }
        } else {
            RetryStep::GiveUp { attempts: MAX_ATTEMPTS }
        }
        &&& self.attempts + 1 < MAX_ATTEMPTS ==> after.wf() && after.attempts == self.attempts + 1
        &&& self.attempts + 1 >= MAX_ATTEMPTS ==> after == self
    }

    pub fn new() -> (r: Self)
        ensures
            r.wf(),
            r.attempts == 0,
    {
        RegisterRetry { attempts: 0, delay_ms: FIRST_DELAY_MS }
    }

    /// An attempt failed.
    pub fn failed(&mut self) -> (step: RetryStep)
        requires
            old(self).wf(),
        ensures
            old(self).retries(step, *final(self)),
    {
        if self.attempts + 1 < MAX_ATTEMPTS {
            let delay_ms: u64 = self.delay_ms;
            self.attempts = self.attempts + 1;
            self.delay_ms = if 2 * delay_ms <= MAX_DELAY_MS {
                2 * delay_ms
            } else {
                MAX_DELAY_MS
            };
            RetryStep::RetryAfter { delay_ms }
        } else {
            RetryStep::GiveUp { attempts: MAX_ATTEMPTS }
        }
    }
}

/// `i` introduces the worker `worker_id` at `address`.
pub open spec fn introduces(
    i: WorkerInfo,
    worker_id: Seq<char>,
    address: Seq<char>,
    max_rps: u32,
) -> bool {
    &&& i.worker_id@ == worker_id
    &&& i.address@ == address
    &&& i.contract_version@ == CONTRACT_VERSION@
    &&& i.max_rps == max_rps
}

/// How a worker introduces itself to the coordinator.
pub fn introduction(worker_id: &str, address: &str, max_rps: u32) -> (i: WorkerInfo)
    ensures
        introduces(i, worker_id@, address@, max_rps),
{
    WorkerInfo {
        worker_id: worker_id.to_owned(),
        address: address.to_owned(),
        contract_version: CONTRACT_VERSION.to_owned(),
        max_rps,
    }
}

/// The address at which a worker tells others to reach it: the one it was given;
/// else its listening address, with the host's name in place of one that stands
/// for every interface.
pub open spec fn advertised(
    address: Option<Seq<char>>,
    unspecified: bool,
    hostname: Option<Seq<char>>,
    listen: Seq<char>,
    port: u16,
) -> Seq<char> {
    match address {
        Some(a) => a,
        None => if unspecified {
            match hostname {
                Some(h) => h + ":"@ + text::decimal(port as nat),
                None => "127.0.0.1"@ + ":"@ + text::decimal(port as nat),
            }
        } else {
            listen
        },
    }
}

/// The address at which a worker tells others to reach it.
pub fn advertised_address(
    address: Option<String>,
    unspecified: bool,
    hostname: Option<String>,
    listen: &str,
    port: u16,
) -> (s: String)
    ensures
        s@ == advertised(
            response::text_view(address),
            unspecified,
            response::text_view(hostname),
            listen@,
            port,
        ),
{
    match address {
        Some(a) => a,
        None => {
            if !unspecified {
                return listen.to_owned();
            }
            let mut s: String = match hostname {
                Some(h) => h,
                None => "127.0.0.1".to_owned(),
            };
            s.append(":");
            s.append(text::decimal_text(port as u64).as_str());
            s
        },
    }
}

/// A worker's own run is what its arguments say: a latency limit in milliseconds, a
/// timeout in seconds, connections kept open unless told not to be, and a policy on
/// rate limiting by its name in any case.
pub proof fn law_arguments_are_run_as_given(args: WorkerArgs, spec: RunSpec)
    requires
        args.describes_at(spec),
        args.timeout_s * 1_000_000 <= u64::MAX,
    ensures
        args.describes(spec) ==> target::uri_parts(args.url@) == Ok::<
            target::UriView,
            Seq<char>,
        >(spec.url@),
        spec.target_rps == args.rate,
        spec.duration_s == args.duration_s,
        spec.connections == args.connections,
        spec.keepalive != args.no_keepalive,
        spec.timeout_us == args.timeout_s * 1_000_000,
        spec.expected_status@ == args.expected_status@,
        args.max_latency_ms matches Some(ms) ==> (ms * 1000 <= u64::MAX ==> spec.max_latency_us
            == Some((ms * 1000) as u64)),
        args.max_latency_ms is None ==> spec.max_latency_us is None,
        spec.min_body_bytes == args.min_body_bytes,
        spec.max_body_bytes == args.max_body_bytes,
        response::text_view(spec.content_type) == response::text_view(args.content_type),
        spec.ramp == args.ramp,
        spec.sample_every_n == args.sample_every_n,
        spec.max_sampled_body_bytes == args.max_sampled_body_bytes,
        spec.max_backoff_ms == args.max_backoff_ms,
        spec.record_onset,
        spec.headers@.len() == 0,
        text::lowered(args.rate_limit_action@) == "continue"@ ==> spec.rate_limit_action
            == RlAction::Continue,
        text::lowered(args.rate_limit_action@) == "abort"@ ==> spec.rate_limit_action
            == RlAction::Abort,
        text::lowered(args.rate_limit_action@) != "continue"@ && text::lowered(
            args.rate_limit_action@,
        ) != "abort"@ ==> spec.rate_limit_action == RlAction::Backoff,
{
    reveal_strlit("continue");
    reveal_strlit("abort");
    assert("continue"@.len() == 8 && "abort"@.len() == 5);
}

/// Attempts to register wait longer and longer: 200 milliseconds after the first
/// failure, then twice as long each time, and never more than five seconds. After
/// thirty failures the worker gives up.
pub proof fn law_waits_between_attempts_double(r: RegisterRetry, step: RetryStep, after: RegisterRetry)
    requires
        r.wf(),
        r.retries(step, after),
    ensures
        r.attempts == 0 ==> step == (RetryStep::RetryAfter { delay_ms: 200 }),
        r.attempts < 29 ==> (step matches RetryStep::RetryAfter { delay_ms } && {
            &&& delay_ms == r.delay_ms
            &&& 200 <= delay_ms <= 5_000
            &&& after.attempts == r.attempts + 1
            &&& 2 * delay_ms <= 5_000 ==> after.delay_ms == 2 * delay_ms
            &&& 2 * delay_ms > 5_000 ==> after.delay_ms == 5_000
        }),
        r.attempts >= 29 ==> step == (RetryStep::GiveUp { attempts: 30 }),
{
    lemma_delay_bounds(r.attempts as nat);
    assert(delay_after(r.attempts as nat + 1) == if 2 * delay_after(r.attempts as nat) <= 5_000 {
        2 * delay_after(r.attempts as nat)
    } else {
        5_000
    });
}

proof fn lemma_delay_bounds(n: nat)
    ensures
        200 <= delay_after(n) <= 5_000,
    decreases n,
{
    if n > 0 {
        lemma_delay_bounds((n - 1) as nat);
    }
}

/// The final figures of a worker's run are those of its report: the corrected
/// percentiles, the rate achieved, the totals, each snapshot as the kind it is, and
/// what was learned of the rate limit.
pub proof fn law_final_figures_are_the_reports(f: FinalizeRun, report: RunReport, accum: BucketAccum)
    requires
        f.finalizes(report, accum),
        report.corrected.p50_us <= i64::MAX,
        report.corrected.p95_us <= i64::MAX,
        report.corrected.p99_us <= i64::MAX,
        report.corrected.p999_us <= i64::MAX,
        report.completed <= i64::MAX,
        report.pass <= i64::MAX,
        report.rate_limited <= i64::MAX,
        report.backoff_us_total <= i64::MAX,
    ensures
        f.p50_us as int == report.corrected.p50_us,
        f.p95_us as int == report.corrected.p95_us,
        f.p99_us as int == report.corrected.p99_us,
        f.p999_us as int == report.corrected.p999_us,
        f.total_requests as int == report.completed,
        f.total_pass as int == report.pass,
        f.rate_limited as int == report.rate_limited,
        f.rate_limit_onset_mrps == report.first_429_mrps,
        f.backoff_us_total as int == report.backoff_us_total,
        f.effective_rps == report.achieved_rps,
        f.status@ == "completed"@,
        hist::encodable(hist::hist_counts(report.histos.corrected)) ==> exists|bytes: Seq<u8>|
            f.corrected_hist_b64@ == #[trigger] text::base64_text(bytes) && hist::v2_read(bytes)
                == Some(
                (
                    hist::hist_layout(report.histos.corrected),
                    hist::hist_counts(report.histos.corrected),
                ),
            ),
        hist::encodable(hist::hist_counts(report.histos.uncorrected)) ==> exists|bytes: Seq<u8>|
            f.uncorrected_hist_b64@ == #[trigger] text::base64_text(bytes) && hist::v2_read(bytes)
                == Some(
                (
                    hist::hist_layout(report.histos.uncorrected),
                    hist::hist_counts(report.histos.uncorrected),
                ),
            ),
{
    let c = choose|bytes: Seq<u8>| #[trigger]
        hist::is_snapshot(
            bytes,
            hist::hist_layout(report.histos.corrected),
            hist::hist_counts(report.histos.corrected),
        ) && f.corrected_hist_b64@ == text::base64_text(bytes);
    assert(f.corrected_hist_b64@ == text::base64_text(c));
    let u = choose|bytes: Seq<u8>| #[trigger]
        hist::is_snapshot(
            bytes,
            hist::hist_layout(report.histos.uncorrected),
            hist::hist_counts(report.histos.uncorrected),
        ) && f.uncorrected_hist_b64@ == text::base64_text(bytes);
    assert(f.uncorrected_hist_b64@ == text::base64_text(u));
}

/// The cliff that a worker reports at the end is that of all its ticks together: the
/// middle of the lowest bucket with thirty responses or more, rate limited ones left
/// out, of which fewer than 95 percent passed.
pub proof fn law_the_reported_cliff_is_the_lowest_failing_load(
    f: FinalizeRun,
    report: RunReport,
    accum: BucketAccum,
    bs: Seq<cliff::BucketCounts>,
) -> (at: u64)
    requires
        f.finalizes(report, accum),
        accum@ == cliff::accumulated(Map::empty(), bs),
        cliff::all_addable(Map::empty(), bs),
        forall|i: int| 0 <= i < bs.len() ==> (#[trigger] bs[i]).rate_limited <= bs[i].total,
    ensures
        f.cliff_rps is Some ==> cliff::fails_over(bs, at, 95, 30),
        f.cliff_rps is Some ==> forall|edge: u64|
            edge < at ==> !#[trigger] cliff::fails_over(bs, edge, 95, 30),
        f.cliff_rps is None ==> forall|edge: u64| !#[trigger] cliff::fails_over(bs, edge, 95, 30),
{
    cliff::law_the_cliff_is_the_lowest_failing_load(bs, 95, 30, f.cliff_rps)
}

/// Where a worker says it can be reached. An address that it was given is told as it
/// is. Otherwise it is the address it listens on, unless that stands for every
/// interface: then it is the host's name with the port, or the loopback address where
/// the host has no name.
pub proof fn law_a_worker_tells_where_it_is_reached(
    hostname: Option<Seq<char>>,
    listen: Seq<char>,
    port: u16,
    given: Seq<char>,
    unspecified: bool,
)
    ensures
        advertised(Some(given), unspecified, hostname, listen, port) == given,
        advertised(None, false, hostname, listen, port) == listen,
        hostname matches Some(h) ==> advertised(None, true, hostname, listen, port) == h + ":"@
            + text::decimal(port as nat),
        hostname is None ==> advertised(None, true, hostname, listen, port) == "127.0.0.1"@ + ":"@
            + text::decimal(port as nat),
{
}

/// The statuses are listed one after the other, with a comma between two of them;
/// where none is listed, any 2xx is expected.
pub proof fn law_statuses_are_listed_with_commas(statuses: Seq<u16>, more: u16)
    ensures
        label_of(Seq::empty()) == "any 2xx"@,
        label_of(seq![more]) == text::decimal(more as nat),
        statuses.len() > 0 ==> label_of(statuses.push(more)) == label_of(statuses) + ","@
            + text::decimal(more as nat),
{
    assert(statuses.push(more).drop_last() =~= statuses);
}

/// A worker that introduces itself with an id and an address is accepted, and then
/// known under that id at that address.
pub proof fn law_a_worker_that_introduces_itself_is_accepted(
    i: WorkerInfo,
    worker_id: Seq<char>,
    address: Seq<char>,
    max_rps: u32,
    workers: Seq<coordinator::WorkerRecord>,
    now_ms: u64,
)
    requires
        introduces(i, worker_id, address, max_rps),
        worker_id.len() > 0,
        address.len() > 0,
        coordinator::distinct_workers(workers),
    ensures
        coordinator::acceptable(i.worker_id@, i.address@, i.contract_version@),
        ({
            let after = coordinator::introduced(
                workers,
                i.worker_id@,
                i.address@,
                i.contract_version@,
                i.max_rps,
                now_ms,
            );
            exists|k: int|
                0 <= k < after.len() && (#[trigger] after[k]).worker_id == worker_id
                    && after[k].address == address && after[k].max_rps == max_rps
        }),
{
    coordinator::law_a_worker_is_registered_as_it_introduced_itself(
        workers,
        i.worker_id@,
        i.address@,
        i.contract_version@,
        i.max_rps,
        now_ms,
    );
}

/// What is kept about a run stands under its id, and a slash at the end of the base
/// address makes no difference.
pub proof fn law_a_run_has_its_own_path(base: Seq<char>, run_id: Seq<char>)
    ensures
        run_path(base.push('/'), run_id) == run_path(base, run_id),
        base.len() > 0 && base.last() != '/' ==> run_path(base, run_id) == base
            + "/v1/_internal/runs/"@ + run_id,
{
    assert(base.push('/').drop_last() =~= base);
}

} // verus!

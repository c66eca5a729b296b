//! One worker's run: what to send, how to judge what comes back, and the plan
//! that spreads a run over its connections.

use vstd::prelude::*;

use crate::rate::{self, Rate};
use crate::sched::{ConnSched, RateSchedule};
use crate::tally::Verdict;
use crate::target::{self, TargetUri};
use crate::{response, text};

verus! {

/// What to do on a rate-limit response.
#[derive(Debug, Clone, Copy, PartialEq, Eq, Structural)]
pub enum RlAction {
    /// Keep firing, just count.
    Continue,
    /// Honour Retry-After, up to the run's cap.
    Backoff,
    /// Stop the run.
    Abort,
}

/// The status code of a rate-limit response.
pub const TOO_MANY_REQUESTS: u16 = 429;

/// A worker's run.
#[derive(Debug, Clone)]
pub struct RunSpec {
    pub url: TargetUri,
    pub method: String,
    /// Headers that every request carries. Never stored or logged.
    pub headers: Vec<(String, String)>,
    /// Target rate over all connections; with `ramp` the peak that the rate
    /// climbs to over the run.
    pub target_rps: Rate,
    pub duration_s: u64,
    /// Connections always stay open for the whole run; kept for callers.
    pub keepalive: bool,
    pub connections: usize,
    /// Longest wait for one response.
    pub timeout_us: u64,
    /// Status codes that pass; none given means that any 2xx passes.
    pub expected_status: Vec<u16>,
    /// Corrected latency above this fails.
    pub max_latency_us: Option<u64>,
    /// A shorter body fails.
    pub min_body_bytes: Option<u64>,
    /// A longer body fails.
    pub max_body_bytes: Option<u64>,
    /// A content type that does not begin with this, in any case, fails.
    pub content_type: Option<String>,
    pub ramp: bool,
    /// Keep every n-th response body; 0 keeps none.
    pub sample_every_n: u32,
    /// Cut kept bodies to this length; 0 keeps them whole.
    pub max_sampled_body_bytes: u32,
    pub rate_limit_action: RlAction,
    /// Longest wait that one Retry-After is granted.
    pub max_backoff_ms: u64,
    /// Whether to note the offered rate at the first rate-limit response.
    pub record_onset: bool,
}

/// The inline assertions of a run, ready to judge responses.
#[derive(Debug, Clone)]
pub struct InlineAssert {
    pub expected_status: Vec<u16>,
    pub max_latency_us: Option<u64>,
    pub min_body_bytes: Option<u64>,
    pub max_body_bytes: Option<u64>,
    /// Content-type prefix in lower case.
    pub content_type_lc_prefix: Option<String>,
    pub sample_every_n: u32,
    pub max_sampled_body_bytes: u32,
}

/// Whether a status passes: one of the expected ones, or any 2xx where none is
/// expected.
pub open spec fn status_ok(expected: Seq<u16>, status: u16) -> bool {
    if expected.len() == 0 {
        200 <= status < 300
    } else {
        expected.contains(status)
    }
}

/// Whether `length` is within the limits that are set.
pub open spec fn size_ok(min: Option<u64>, max: Option<u64>, length: u64) -> bool {
    &&& min matches Some(m) ==> m <= length
    &&& max matches Some(m) ==> length <= m
}

/// Whether the content type begins with the wanted prefix, where one is wanted.
pub open spec fn type_ok(prefix: Option<Seq<char>>, content_type: Option<Seq<char>>) -> bool {
    prefix matches Some(p) ==> content_type is Some && p.is_prefix_of(content_type->0)
}

/// An optional text slice as plain values.
pub open spec fn str_view(t: Option<&str>) -> Option<Seq<char>> {
    match t {
        Some(s) => Some(s@),
        None => None,
    }
}

impl InlineAssert {
    /// The verdict on one response. A rate-limit response is neither a pass nor
    /// a failure, whatever statuses are expected; after that the tiers count in
    /// this order: status, latency, size, content type.
    pub open spec fn verdict(
        self,
        status: u16,
        corrected_us: u64,
        content_length: u64,
        content_type_lc: Option<Seq<char>>,
    ) -> Verdict {
        if status == TOO_MANY_REQUESTS {
            Verdict::RateLimited
        } else if !status_ok(self.expected_status@, status) {
            Verdict::FailStatus
        } else if self.max_latency_us is Some && corrected_us > self.max_latency_us->0 {
            Verdict::FailLatency
        } else if !size_ok(self.min_body_bytes, self.max_body_bytes, content_length) {
            Verdict::FailSize
        } else if !type_ok(response::text_view(self.content_type_lc_prefix), content_type_lc) {
            Verdict::FailContentType
        } else {
            Verdict::Pass
        }
    }

    /// These are the assertions that `spec` sets.
    pub open spec fn set_by(self, spec: RunSpec) -> bool {
        &&& self.expected_status@ == spec.expected_status@
        &&& self.max_latency_us == spec.max_latency_us
        &&& self.min_body_bytes == spec.min_body_bytes
        &&& self.max_body_bytes == spec.max_body_bytes
        &&& response::text_view(self.content_type_lc_prefix) == match response::text_view(
            spec.content_type,
        ) {
            Some(t) => Some(text::lowered(t)),
            None => None,
        }
        &&& self.sample_every_n == spec.sample_every_n
        &&& self.max_sampled_body_bytes == spec.max_sampled_body_bytes
    }

    pub fn from_spec(spec: &RunSpec) -> (a: Self)
        ensures
            a.set_by(*spec),
    {
        InlineAssert {
            expected_status: spec.expected_status.clone(),
            max_latency_us: spec.max_latency_us,
            min_body_bytes: spec.min_body_bytes,
            max_body_bytes: spec.max_body_bytes,
            content_type_lc_prefix: match &spec.content_type {
                Some(t) => Some(text::to_lower(t)),
                None => None,
            },
            sample_every_n: spec.sample_every_n,
            max_sampled_body_bytes: spec.max_sampled_body_bytes,
        }
    }

    /// Judge one response.
    pub fn classify(
        &self,
        status: u16,
        corrected_us: u64,
        content_length: u64,
        content_type_lc: Option<&str>,
    ) -> (v: Verdict)
        ensures
            v == self.verdict(status, corrected_us, content_length, str_view(content_type_lc)),
    {
        if status == TOO_MANY_REQUESTS {
            return Verdict::RateLimited;
        }
        let status_passes: bool = if self.expected_status.len() == 0 {
            200 <= status && status < 300
        } else {
            contains_status(&self.expected_status, status)
        };
        if !status_passes {
            return Verdict::FailStatus;
        }
        if let Some(max) = self.max_latency_us {
            if corrected_us > max {
                return Verdict::FailLatency;
            }
        }
        if let Some(min) = self.min_body_bytes {
            if content_length < min {
                return Verdict::FailSize;
            }
        }
        if let Some(max) = self.max_body_bytes {
            if content_length > max {
                return Verdict::FailSize;
            }
        }
        if let Some(want_prefix) = &self.content_type_lc_prefix {
            let ok: bool = match content_type_lc {
                Some(got) => text::starts_with(got, want_prefix),
                None => false,
            };
            if !ok {
                return Verdict::FailContentType;
            }
        }
        Verdict::Pass
    }
}

fn contains_status(all: &Vec<u16>, status: u16) -> (b: bool)
    ensures
        b == all@.contains(status),
{
    let mut i: usize = 0;
    while i < all.len()
        invariant
            i <= all.len(),
            forall|k: int| 0 <= k < i ==> all[k] != status,
        decreases all.len() - i,
    {
        if all[i] == status {
            return true;
        }
        i = i + 1;
    }
    false
}

/// Why a run cannot start.
#[derive(Debug, Clone, Copy, PartialEq, Eq, Structural)]
pub enum RunError {
    /// The target URI names no host.
    MissingHost,
    /// The target URI's scheme is not http.
    SchemeNotHttp,
}

impl RunError {
    pub open spec fn text(self) -> Seq<char> {
        match self {
            RunError::MissingHost => "URL missing host"@,
            RunError::SchemeNotHttp => "only http:// supported in this MVP"@,
        }
    }

    pub fn message(&self) -> (s: &'static str)
        ensures
            s@ == self.text(),
    {
        match self {
            RunError::MissingHost => "URL missing host",
            RunError::SchemeNotHttp => "only http:// supported in this MVP",
        }
    }
}

/// What the connections of a run share before it starts.
#[derive(Debug)]
pub struct RunPlan {
    pub host: String,
    pub port: u16,
    /// The request that every connection sends, over and over.
    pub request: Vec<u8>,
    /// Each connection's schedule.
    pub schedule: RateSchedule,
    /// Schedule starts of neighbouring connections are this far apart, so that
    /// their requests spread over one interval.
    pub stagger_us: u64,
    pub connections: usize,
    pub duration_us: u64,
    /// The schedule of all connections together.
    pub offered: RateSchedule,
}

/// `s` seconds in microseconds, at most the largest `u64`.
pub open spec fn seconds_us(s: u64) -> u64 {
    if s * 1_000_000 <= u64::MAX {
        (s * 1_000_000) as u64
    } else {
        u64::MAX
    }
}

/// The number of parts that a run's rate is split into.
pub open spec fn parts(connections: usize) -> nat {
    if connections == 0 {
        1
    } else {
        connections as nat
    }
}

/// A schedule of this shape.
pub open spec fn shaped(ramp: bool, duration_s: u64, rate: Rate) -> RateSchedule {
    if ramp {
        RateSchedule::Ramp { duration_us: seconds_us(duration_s), peak_throughput_us: rate }
    } else {
        RateSchedule::Constant { throughput_us: rate }
    }
}

impl RunSpec {
    /// The run's rate can be split over its connections and doubled.
    pub open spec fn rate_fits(self) -> bool {
        &&& self.target_rps.per_us * parts(self.connections) <= u64::MAX
        &&& 2 * self.target_rps.requests <= u64::MAX
    }

    /// The rate of one connection.
    pub open spec fn conn_rate(self) -> Rate {
        Rate {
            requests: self.target_rps.requests,
            per_us: (self.target_rps.per_us * parts(self.connections)) as u64,
        }
    }

    /// The error that keeps the run from starting, if one does.
    pub open spec fn refusal(self) -> Option<RunError> {
        if self.url@.host is None {
            Some(RunError::MissingHost)
        } else if self.url@.scheme is Some && self.url@.scheme->0 != "http"@ {
            Some(RunError::SchemeNotHttp)
        } else {
            None
        }
    }

    /// Whether the run's rate can be split over its connections and doubled.
    pub fn has_fitting_rate(&self) -> (b: bool)
        ensures
            b == self.rate_fits(),
    {
        let n: u64 = if self.connections == 0 {
            1
        } else {
            self.connections as u64
        };
        let product: u128 = {
            proof {
                rate::lemma_product_fits(self.target_rps.per_us, n);
            }
            self.target_rps.per_us as u128 * n as u128
        };
        product <= u64::MAX as u128 && self.target_rps.requests <= u64::MAX / 2
    }
}

/// `s` seconds in microseconds, at most the largest `u64`.
pub fn seconds_to_us(s: u64) -> (us: u64)
    ensures
        us == seconds_us(s),
{
    if s <= u64::MAX / 1_000_000 {
        s * 1_000_000
    } else {
        u64::MAX
    }
}

fn shape(ramp: bool, duration_s: u64, rate: Rate) -> (s: RateSchedule)
    ensures
        s == shaped(ramp, duration_s, rate),
{
    if ramp {
        RateSchedule::Ramp { duration_us: seconds_to_us(duration_s), peak_throughput_us: rate }
    } else {
        RateSchedule::Constant { throughput_us: rate }
    }
}

impl RunPlan {
    /// This is the plan of `spec`.
    pub open spec fn plan_of(self, spec: RunSpec) -> bool {
        let port: u16 = match spec.url@.port {
            Some(p) => p,
            None => 80,
        };
        let path = match spec.url@.path_and_query {
            Some(p) => p,
            None => "/"@,
        };
        &&& Some(self.host@) == spec.url@.host
        &&& self.port == port
        &&& self.request@ == vstd::utf8::encode_utf8(
            target::request_text(
                spec.method@,
                path,
                target::host_header(self.host@, port),
                text::pairs(spec.headers@),
            ),
        )
        &&& self.schedule == shaped(spec.ramp, spec.duration_s, spec.conn_rate())
        &&& self.stagger_us == spec.conn_rate().slot(1) / parts(spec.connections)
        &&& self.connections == spec.connections
        &&& self.duration_us == seconds_us(spec.duration_s)
        &&& self.offered == shaped(spec.ramp, spec.duration_s, spec.target_rps)
    }

    /// A plan's staggered schedule starts are representable, and its constant
    /// rate can be doubled.
    pub open spec fn wf(self) -> bool {
        &&& self.stagger_us * parts(self.connections) <= u64::MAX
        &&& self.schedule matches RateSchedule::Constant { throughput_us } ==> 2
            * throughput_us.requests <= u64::MAX
    }

    /// Plan a run.
    pub fn new(spec: &RunSpec) -> (r: Result<RunPlan, RunError>)
        requires
            spec.rate_fits(),
        ensures
            r is Err <==> spec.refusal() is Some,
            r matches Err(e) ==> spec.refusal() == Some(e),
            r matches Ok(p) ==> p.plan_of(*spec) && p.wf(),
    {
        let host: String = match &spec.url.host {
            Some(h) => h.clone(),
            None => return Err(RunError::MissingHost),
        };
        if let Some(s) = &spec.url.scheme {
            if !text::same(s, "http") {
                return Err(RunError::SchemeNotHttp);
            }
        }
        let port: u16 = match spec.url.port {
            Some(p) => p,
            None => 80,
        };
        let header: String = target::host_header_for(&host, port);
        let request: Vec<u8> = match &spec.url.path_and_query {
            Some(p) => target::request_bytes(&spec.method, p, &header, &spec.headers),
            None => target::request_bytes(&spec.method, "/", &header, &spec.headers),
        };
        let n: u64 = if spec.connections == 0 {
            1
        } else {
            spec.connections as u64
        };
        let conn_rate: Rate = spec.target_rps.split(n);
        let interval: u64 = conn_rate.slot_us(1);
        let stagger_us: u64 = interval / n;
        assert(stagger_us * n <= interval) by (nonlinear_arith)
            requires
                stagger_us == interval / n,
                n > 0,
        ;
        Ok(
            RunPlan {
                host,
                port,
                request,
                schedule: shape(spec.ramp, spec.duration_s, conn_rate),
                stagger_us,
                connections: spec.connections,
                duration_us: seconds_to_us(spec.duration_s),
                offered: shape(spec.ramp, spec.duration_s, spec.target_rps),
            },
        )
    }

    /// The schedule of connection `conn_id`.
    pub open spec fn sched_of(self, conn_id: int) -> ConnSched {
        ConnSched {
            thread_start_us: (conn_id * self.stagger_us) as u64,
            complete: 0,
            schedule: self.schedule,
            catch_up_us: match self.schedule {
                RateSchedule::Constant { throughput_us } => Rate {
                    requests: (2 * throughput_us.requests) as u64,
                    per_us: throughput_us.per_us,
                },
                RateSchedule::Ramp { .. } => Rate { requests: 0, per_us: 1 },
            },
            caught_up: true,
            catch_up_start_time: 0,
            complete_at_catch_up_start: 0,
        }
    }

    /// The schedule of connection `conn_id`.
    pub fn conn_sched(&self, conn_id: usize) -> (s: ConnSched)
        requires
            self.wf(),
            conn_id < self.connections,
        ensures
            s == self.sched_of(conn_id as int),
            s.thread_start_us == conn_id * self.stagger_us,
    {
        assert(0 <= conn_id * self.stagger_us <= self.stagger_us * parts(self.connections))
            by (nonlinear_arith)
            requires
                0 <= conn_id <= parts(self.connections),
                0 <= self.stagger_us,
        ;
        let offset_us: u64 = conn_id as u64 * self.stagger_us;
        match self.schedule {
            RateSchedule::Constant { throughput_us } => ConnSched::new(offset_us, throughput_us),
            RateSchedule::Ramp { duration_us, peak_throughput_us } => ConnSched::ramp(
                offset_us,
                duration_us,
                peak_throughput_us,
            ),
        }
    }
}

/// The connections' rates make up the run's: together they offer exactly the
/// target.
pub proof fn law_connections_make_up_the_target(spec: RunSpec)
    requires
        spec.rate_fits(),
    ensures
        parts(spec.connections) * spec.conn_rate().requests * spec.target_rps.per_us
            == spec.target_rps.requests * spec.conn_rate().per_us,
{
    let n = parts(spec.connections) as int;
    let r = spec.target_rps.requests as int;
    let p = spec.target_rps.per_us as int;
    assert(0 <= p * n) by (nonlinear_arith)
        requires
            p >= 0,
            n >= 0,
    ;
    assert(n * r * p == r * (p * n)) by (nonlinear_arith);
}

/// The connections' first requests are spread over one interval: each follows its
/// neighbour by the same distance, and the last one's stretch still ends within
/// the interval.
pub proof fn law_connections_start_within_one_interval(plan: RunPlan, spec: RunSpec, conn_id: int)
    requires
        plan.plan_of(spec),
        plan.wf(),
        0 <= conn_id < plan.connections,
    ensures
        plan.sched_of(conn_id).thread_start_us == conn_id * plan.stagger_us,
        plan.sched_of(conn_id).thread_start_us + plan.stagger_us <= spec.conn_rate().slot(1),
{
    let n = parts(spec.connections) as int;
    let interval = spec.conn_rate().slot(1) as int;
    let stagger = plan.stagger_us as int;
    assert(0 <= conn_id * stagger && conn_id * stagger + stagger <= interval) by (nonlinear_arith)
        requires
            stagger == interval / n,
            0 <= interval,
            0 <= conn_id,
            conn_id + 1 <= n,
    ;
}

/// What a verdict says of a response. Status 429 is rate limiting, whatever is
/// expected. Of the rest, a status that is not expected fails first; then a latency
/// above the limit; then a body shorter or longer than the limits; then a content
/// type that does not begin as wanted. What meets all of these passes.
pub proof fn law_the_first_failed_tier_decides(
    a: InlineAssert,
    status: u16,
    corrected_us: u64,
    content_length: u64,
    content_type_lc: Option<Seq<char>>,
)
    ensures
        ({
            let v = a.verdict(status, corrected_us, content_length, content_type_lc);
            let expected = a.expected_status@;
            let known = if expected.len() == 0 {
                200 <= status <= 299
            } else {
                exists|i: int| 0 <= i < expected.len() && #[trigger] expected[i] == status
            };
            let slow = a.max_latency_us matches Some(max) && corrected_us > max;
            let short = a.min_body_bytes matches Some(min) && content_length < min;
            let long = a.max_body_bytes matches Some(max) && content_length > max;
            let other_type = a.content_type_lc_prefix matches Some(want) && !(
            content_type_lc matches Some(got) && want@.len() <= got.len() && got.take(
                want@.len() as int,
            ) == want@);
            &&& v is RateLimited <==> status == 429
            &&& v is FailStatus <==> status != 429 && !known
            &&& v is FailLatency <==> status != 429 && known && slow
            &&& v is FailSize <==> status != 429 && known && !slow && (short || long)
            &&& v is FailContentType <==> status != 429 && known && !slow && !short && !long
                && other_type
            &&& v is Pass <==> status != 429 && known && !slow && !short && !long && !other_type
        }),
{
    if let Some(want) = a.content_type_lc_prefix {
        if let Some(got) = content_type_lc {
            if want@.len() <= got.len() {
                assert(want@.is_prefix_of(got) <==> got.take(want@.len() as int) =~= want@) by {
                    if got.take(want@.len() as int) =~= want@ {
                        assert forall|i: int| 0 <= i < want@.len() implies want@[i] == got[i] by {
                            assert(got.take(want@.len() as int)[i] == got[i]);
                        }
                    }
                }
            }
        }
    }
}

/// A run judges by its own spec: each limit is the one that the spec sets, the
/// wanted content type with its ASCII capitals in lower case.
pub proof fn law_a_run_judges_by_its_spec(a: InlineAssert, spec: RunSpec)
    requires
        a.set_by(spec),
    ensures
        a.expected_status@ == spec.expected_status@,
        a.max_latency_us == spec.max_latency_us,
        a.min_body_bytes == spec.min_body_bytes,
        a.max_body_bytes == spec.max_body_bytes,
        a.sample_every_n == spec.sample_every_n,
        a.max_sampled_body_bytes == spec.max_sampled_body_bytes,
        a.content_type_lc_prefix is Some <==> spec.content_type is Some,
        a.content_type_lc_prefix matches Some(p) ==> {
            &&& p@.len() == spec.content_type->0@.len()
            &&& forall|i: int|
                0 <= i < p@.len() ==> {
                    let c = spec.content_type->0@[i];
                    (#[trigger] p@[i]) as u32 == if 'A' <= c <= 'Z' {
                        c as u32 + 32
                    } else {
                        c as int
                    }
                }
        },
{
    if let Some(p) = a.content_type_lc_prefix {
        let t = spec.content_type->0@;
        assert(p@ == text::lowered(t));
        assert forall|i: int| 0 <= i < p@.len() implies {
            (#[trigger] p@[i]) as u32 == if 'A' <= t[i] <= 'Z' {
                t[i] as u32 + 32
            } else {
                t[i] as int
            }
        } by {
            text::law_case_is_ascii_case(t[i]);
            assert(text::lowered(t)[i] == text::lower_char(t[i]));
        }
    }
}

/// Every connection runs its share: the target's requests over a period as many
/// times as long as there are connections, at a constant rate or climbing over the
/// whole run; it starts with nothing answered and on its schedule, and catches up at
/// twice its rate. The run as a whole offers the target, for as long as it lasts.
pub proof fn law_a_connection_runs_its_share(plan: RunPlan, spec: RunSpec, conn_id: int)
    requires
        plan.plan_of(spec),
        plan.wf(),
        spec.rate_fits(),
        0 <= conn_id < spec.connections,
        spec.duration_s * 1_000_000 <= u64::MAX,
    ensures
        ({
            let s = plan.sched_of(conn_id);
            let target = spec.target_rps;
            &&& s.complete == 0 && s.caught_up
            &&& plan.duration_us == spec.duration_s * 1_000_000
            &&& !spec.ramp ==> {
                &&& s.schedule matches RateSchedule::Constant { throughput_us } && {
                    &&& throughput_us.requests == target.requests
                    &&& throughput_us.per_us == target.per_us * spec.connections
                }
                &&& s.catch_up_us.requests == 2 * target.requests
                &&& s.catch_up_us.per_us == target.per_us * spec.connections
                &&& plan.offered == (RateSchedule::Constant { throughput_us: target })
            }
            &&& spec.ramp ==> {
                &&& s.schedule matches RateSchedule::Ramp { duration_us, peak_throughput_us } && {
                    &&& duration_us == spec.duration_s * 1_000_000
                    &&& peak_throughput_us.requests == target.requests
                    &&& peak_throughput_us.per_us == target.per_us * spec.connections
                }
                &&& plan.offered matches RateSchedule::Ramp { duration_us, peak_throughput_us }
                    && duration_us == spec.duration_s * 1_000_000 && peak_throughput_us == target
            }
        }),
{
    assert(0 <= spec.target_rps.per_us * parts(spec.connections)) by (nonlinear_arith)
        requires
            spec.target_rps.per_us >= 0,
            parts(spec.connections) >= 0,
    ;
}

/// Connections start evenly apart: the distance between neighbours is one
/// connection's interval divided by their number, rounded down.
pub proof fn law_connections_start_evenly_apart(plan: RunPlan, spec: RunSpec)
    requires
        plan.plan_of(spec),
        spec.rate_fits(),
        spec.connections > 0,
        spec.target_rps.requests > 0,
    ensures
        ({
            let n = spec.connections as int;
            let interval = spec.target_rps.per_us * n / (spec.target_rps.requests as int);
            interval <= u64::MAX ==> plan.stagger_us * n <= interval < (plan.stagger_us + 1) * n
        }),
{
    let n = spec.connections as int;
    let p = spec.target_rps.per_us as int;
    let r = spec.target_rps.requests as int;
    assert(0 <= p * n && 1 * (p * n) == p * n) by (nonlinear_arith)
        requires
            p >= 0,
            n > 0,
    ;
    assert(spec.conn_rate().per_us == p * n);
    let interval = p * n / r;
    assert(interval >= 0) by (nonlinear_arith)
        requires
            interval == p * n / r,
            p * n >= 0,
            r > 0,
    ;
    if interval <= u64::MAX {
        assert(spec.conn_rate().slot(1) == interval);
        let g = plan.stagger_us as int;
        assert(g == interval / n);
        assert(g * n <= interval < (g + 1) * n) by (nonlinear_arith)
            requires
                g == interval / n,
                n > 0,
        ;
    }
}

/// A plan talks to the host and port that the target names, port 80 where it names
/// none.
pub proof fn law_a_plan_addresses_its_target(plan: RunPlan, spec: RunSpec)
    requires
        plan.plan_of(spec),
    ensures
        spec.url@.host == Some(plan.host@),
        spec.url@.port matches Some(p) ==> plan.port == p,
        spec.url@.port is None ==> plan.port == 80,
        plan.connections == spec.connections,
{
}

/// A run starts if its target names a host and no scheme but http; a missing host is
/// reported before a scheme that is not http.
pub proof fn law_only_http_targets_with_a_host_are_run(spec: RunSpec)
    ensures
        spec.refusal() is None <==> spec.url@.host is Some && (spec.url@.scheme is None
            || spec.url@.scheme == Some("http"@)),
        spec.refusal() == Some(RunError::MissingHost) <==> spec.url@.host is None,
{
}

/// Every connection sends the request that the spec describes, byte for byte: method,
/// path with its query, or the root where there is none, the target's host, with its
/// port unless that is 80, and the run's own headers last.
pub proof fn law_a_plan_sends_its_request(plan: RunPlan, spec: RunSpec)
    requires
        plan.plan_of(spec),
    ensures
        ({
            let path = match spec.url@.path_and_query {
                Some(p) => p,
                None => "/"@,
            };
            let host = if plan.port == 80 {
                plan.host@
            } else {
                plan.host@ + ":"@ + text::decimal(plan.port as nat)
            };
            plan.request@ == vstd::utf8::encode_utf8(
                spec.method@ + " "@ + path + " HTTP/1.1\r\nHost: "@ + host
                    + "\r\nAccept: */*\r\nConnection: keep-alive\r\nUser-Agent: engine-worker/0.1\r\n"@
                    + target::header_lines(text::pairs(spec.headers@)) + "\r\n"@,
            )
        }),
{
}

/// Seconds become microseconds exactly, up to the largest number.
pub proof fn law_seconds_are_a_million_microseconds(s: u64)
    ensures
        s * 1_000_000 <= u64::MAX ==> seconds_us(s) == s * 1_000_000,
        s * 1_000_000 > u64::MAX ==> seconds_us(s) == u64::MAX,
{
}

} // verus!

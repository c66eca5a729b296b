//! The coordinator's admin surface: what a run request becomes, and what is told
//! about a run once it is over.

use vstd::prelude::*;

use crate::cliff::{self, BucketAccum, BucketCounts};
use crate::coordinator::dispatch::{
    AggregatedTick, DispatchError, DispatchSpec, DispatchSummary,
};
use crate::coordinator::{self, Worker};
use crate::rate::Rate;
use crate::text;

verus! {

/// The status code that tells that nothing can be dispatched now.
pub const SERVICE_UNAVAILABLE: u16 = 503;

/// A request to run a benchmark.
#[derive(Debug)]
pub struct RunRequest {
    pub run_id: String,
    pub target_url: String,
    pub target_method: String,
    pub target_rps: Rate,
    pub duration_s: u64,
    pub connections: u32,
    pub keepalive: bool,
    pub timeout_ms: u32,
    pub expected_status: Vec<i32>,
    pub max_latency_us: Option<i64>,
    pub min_body_bytes: Option<i32>,
    pub max_body_bytes: Option<i32>,
    pub content_type: Option<String>,
    pub target_headers: Vec<(String, String)>,
    pub epoch_unix_us: i64,
    /// Where to send each tick, if anywhere.
    pub control_tick_url: Option<String>,
    /// Where to send the final figures, if anywhere.
    pub control_finalize_url: Option<String>,
}

/// The method of a request that names none.
pub fn default_method() -> (s: String)
    ensures
        s@ == "GET"@,
{
    "GET".to_owned()
}

/// The connections of a request that names none.
pub fn default_connections() -> (n: u32)
    ensures
        n == 50,
{
    50
}

/// Whether connections stay open where a request does not say.
pub fn default_keepalive() -> (b: bool)
    ensures
        b,
{
    true
}

/// The timeout of a request that names none, in milliseconds.
pub fn default_timeout_ms() -> (ms: u32)
    ensures
        ms == 30_000,
{
    30_000
}

/// Where a run's figures go while it runs and once it is over.
#[derive(Debug)]
pub struct PushTargets {
    pub run_id: String,
    pub tick_url: Option<String>,
    pub finalize_url: Option<String>,
}

impl RunRequest {
    /// `spec` is the run that is asked for.
    pub open spec fn asks_for(self, spec: DispatchSpec) -> bool {
        &&& spec.run_id@ == self.run_id@
        &&& spec.target_url == self.target_url
        &&& spec.target_method == self.target_method
        &&& spec.target_rps == self.target_rps
        &&& spec.duration_s == self.duration_s
        &&& spec.connections == self.connections
        &&& spec.keepalive == self.keepalive
        &&& spec.timeout_ms == self.timeout_ms
        &&& spec.expected_status == self.expected_status
        &&& spec.max_latency_us == self.max_latency_us
        &&& spec.min_body_bytes == self.min_body_bytes
        &&& spec.max_body_bytes == self.max_body_bytes
        &&& spec.content_type == self.content_type
        &&& spec.target_headers == self.target_headers
        &&& spec.epoch_unix_us == self.epoch_unix_us
    }

    /// `push` are the places that the request wants its figures sent to.
    pub open spec fn reports_to(self, push: PushTargets) -> bool {
        &&& push.run_id@ == self.run_id@
        &&& push.tick_url == self.control_tick_url
        &&& push.finalize_url == self.control_finalize_url
    }

    /// Part a request into the run to dispatch and the places to report to.
    pub fn into_dispatch(self) -> (r: (DispatchSpec, PushTargets))
        ensures
            self.asks_for(r.0),
            self.reports_to(r.1),
    {
        let push: PushTargets = PushTargets {
            run_id: self.run_id.clone(),
            tick_url: self.control_tick_url,
            finalize_url: self.control_finalize_url,
        };
        let spec: DispatchSpec = DispatchSpec {
            run_id: self.run_id,
            target_url: self.target_url,
            target_method: self.target_method,
            target_rps: self.target_rps,
            duration_s: self.duration_s,
            connections: self.connections,
            keepalive: self.keepalive,
            timeout_ms: self.timeout_ms,
            expected_status: self.expected_status,
            max_latency_us: self.max_latency_us,
            min_body_bytes: self.min_body_bytes,
            max_body_bytes: self.max_body_bytes,
            content_type: self.content_type,
            target_headers: self.target_headers,
            epoch_unix_us: self.epoch_unix_us,
        };
        (spec, push)
    }
}

/// The answer to a run request.
#[derive(Debug)]
pub struct RunResponse {
    pub run_id: String,
    pub workers_dispatched: usize,
    pub workers_finished: usize,
    pub total_completed: u64,
    pub total_pass: u64,
    pub total_fail_status: u64,
    pub total_fail_latency: u64,
    pub total_fail_size: u64,
    pub total_fail_content_type: u64,
}

impl RunResponse {
    /// The answer to the run `run_id` whose dispatch came to `s`.
    pub open spec fn answers(self, run_id: String, s: DispatchSummary) -> bool {
        self == (RunResponse {
            run_id,
            workers_dispatched: s.workers_dispatched,
            workers_finished: s.workers_finished,
            total_completed: s.total_completed,
            total_pass: s.total_pass,
            total_fail_status: s.total_fail_status,
            total_fail_latency: s.total_fail_latency,
            total_fail_size: s.total_fail_size,
            total_fail_content_type: s.total_fail_content_type,
        })
    }
}

/// The answer to a run request that cannot be met.
#[derive(Debug)]
pub struct ErrorBody {
    pub status: u16,
    pub error: String,
}

/// The answer to a run whose dispatch came to `s`.
pub fn to_response(run_id: String, s: &DispatchSummary) -> (r: RunResponse)
    ensures
        r.answers(run_id, *s),
{
    RunResponse {
        run_id,
        workers_dispatched: s.workers_dispatched,
        workers_finished: s.workers_finished,
        total_completed: s.total_completed,
        total_pass: s.total_pass,
        total_fail_status: s.total_fail_status,
        total_fail_latency: s.total_fail_latency,
        total_fail_size: s.total_fail_size,
        total_fail_content_type: s.total_fail_content_type,
    }
}

/// The answer to a run that could not be dispatched.
pub fn to_error(e: DispatchError) -> (r: ErrorBody)
    ensures
        r.turns_down(e),
{
    ErrorBody { status: SERVICE_UNAVAILABLE, error: e.message().to_owned() }
}

impl ErrorBody {
    /// The answer to a run that could not be dispatched for `e`.
    pub open spec fn turns_down(self, e: DispatchError) -> bool {
        self.status == SERVICE_UNAVAILABLE && self.error@ == e.text()
    }
}

/// What is shown of a registered worker.
#[derive(Debug)]
pub struct WorkerView {
    pub worker_id: String,
    pub address: String,
    pub contract_version: String,
    pub max_rps: u32,
}

impl WorkerView {
    /// This is what is shown of `w`.
    pub open spec fn shows(self, w: coordinator::WorkerRecord) -> bool {
        &&& self.worker_id@ == w.worker_id
        &&& self.address@ == w.address
        &&& self.contract_version@ == w.contract_version
        &&& self.max_rps == w.max_rps
    }

    pub fn of(w: &Worker) -> (v: Self)
        ensures
            v.shows(w@),
    {
        WorkerView {
            worker_id: w.worker_id.clone(),
            address: w.address.clone(),
            contract_version: w.contract_version.clone(),
            max_rps: w.max_rps,
        }
    }
}

/// The latest figures of a run, kept for its end.
#[derive(Debug, Clone)]
pub struct FinalsAcc {
    pub last_p50_us: u64,
    pub last_p95_us: u64,
    pub last_p99_us: u64,
    pub last_achieved_rps: u64,
    /// Latest corrected snapshot that was not empty.
    pub last_hist_v2: Vec<u8>,
    /// Latest uncorrected snapshot that was not empty.
    pub last_uncorrected_hist_v2: Vec<u8>,
    pub buckets: BucketAccum,
}

impl FinalsAcc {
    pub open spec fn wf(self) -> bool {
        self.buckets.wf()
    }

    pub fn new() -> (f: Self)
        ensures
            f.wf(),
            f.last_p50_us == 0,
            f.last_p95_us == 0,
            f.last_p99_us == 0,
            f.last_achieved_rps == 0,
            f.last_hist_v2@.len() == 0,
            f.last_uncorrected_hist_v2@.len() == 0,
            f.buckets@ == Map::<u64, BucketCounts>::empty(),
    {
        FinalsAcc {
            last_p50_us: 0,
            last_p95_us: 0,
            last_p99_us: 0,
            last_achieved_rps: 0,
            last_hist_v2: Vec::new(),
            last_uncorrected_hist_v2: Vec::new(),
            buckets: BucketAccum::new(),
        }
    }

    /// `after` is what the figures become when the tick is taken in.
    pub open spec fn observes(self, tick: AggregatedTick, after: FinalsAcc) -> bool {
        &&& if tick.percentiles_so_far.p99_us > 0 {
            &&& after.last_p50_us == tick.percentiles_so_far.p50_us
            &&& after.last_p95_us == tick.percentiles_so_far.p95_us
            &&& after.last_p99_us == tick.percentiles_so_far.p99_us
        } else {
            &&& after.last_p50_us == self.last_p50_us
            &&& after.last_p95_us == self.last_p95_us
            &&& after.last_p99_us == self.last_p99_us
        }
        &&& after.last_hist_v2@ == if tick.merged_hist_v2@.len() > 0 {
            tick.merged_hist_v2@
        } else {
            self.last_hist_v2@
        }
        &&& after.last_uncorrected_hist_v2@ == if tick.merged_uncorrected_hist_v2@.len() > 0 {
            tick.merged_uncorrected_hist_v2@
        } else {
            self.last_uncorrected_hist_v2@
        }
        &&& after.last_achieved_rps == tick.achieved_rps_1s
        &&& after.buckets@ == cliff::accumulated(self.buckets@, cliff::buckets_of(tick.buckets@))
    }

    /// Take in one tick. A tick without percentiles or without a snapshot keeps
    /// the ones there are. Returns whether all counts fit; a bucket whose counts
    /// would not is left out.
    pub fn observe(&mut self, tick: &AggregatedTick) -> (fits: bool)
        requires
            old(self).wf(),
        ensures
            final(self).wf(),
            old(self).observes(*tick, *final(self)),
            fits == cliff::all_addable(old(self).buckets@, cliff::buckets_of(tick.buckets@)),
    {
        if tick.percentiles_so_far.p99_us > 0 {
            self.last_p50_us = tick.percentiles_so_far.p50_us;
            self.last_p95_us = tick.percentiles_so_far.p95_us;
            self.last_p99_us = tick.percentiles_so_far.p99_us;
        }
        if tick.merged_hist_v2.len() > 0 {
            self.last_hist_v2 = tick.merged_hist_v2.clone();
        }
        if tick.merged_uncorrected_hist_v2.len() > 0 {
            self.last_uncorrected_hist_v2 = tick.merged_uncorrected_hist_v2.clone();
        }
        self.last_achieved_rps = tick.achieved_rps_1s;
        cliff::observe_buckets(&mut self.buckets, &tick.buckets)
    }

    /// The load at which the run's correctness fell off a cliff, if it did.
    pub fn cliff_rps(&self) -> (r: Option<u64>)
        requires
            self.wf(),
        ensures
            cliff::is_cliff(
                self.buckets@,
                cliff::CLIFF_THRESHOLD_PCT,
                cliff::CLIFF_MIN_SAMPLES,
                r,
            ),
    {
        self.buckets.detect_cliff_rps(cliff::CLIFF_THRESHOLD_PCT, cliff::CLIFF_MIN_SAMPLES)
    }
}

/// The final figures of a dispatched run.
#[derive(Debug)]
pub struct FinalizeFleet {
    pub effective_rps: u64,
    pub p50_us: i64,
    pub p95_us: i64,
    pub p99_us: i64,
    /// The fleet's ticks carry no higher percentile than the 99th, which stands
    /// in for this one.
    pub p999_us: i64,
    pub total_requests: i64,
    pub total_pass: i64,
    pub cliff_rps: Option<u64>,
    pub status: String,
    pub corrected_hist_b64: String,
    pub uncorrected_hist_b64: String,
}

/// How a run ended.
pub open spec fn final_status(aborted: bool) -> Seq<char> {
    if aborted {
        "aborted"@
    } else {
        "completed"@
    }
}

impl FinalizeFleet {
    /// The final figures of a run from its latest ticks and its dispatch's summary.
    pub open spec fn finalizes(self, finals: FinalsAcc, summary: DispatchSummary) -> bool {
        &&& self.effective_rps == finals.last_achieved_rps
        &&& self.p50_us == finals.last_p50_us as i64
        &&& self.p95_us == finals.last_p95_us as i64
        &&& self.p99_us == finals.last_p99_us as i64
        &&& self.p999_us == self.p99_us
        &&& self.total_requests == summary.total_completed as i64
        &&& self.total_pass == summary.total_pass as i64
        &&& cliff::is_cliff(
            finals.buckets@,
            cliff::CLIFF_THRESHOLD_PCT,
            cliff::CLIFF_MIN_SAMPLES,
            self.cliff_rps,
        )
        &&& self.status@ == final_status(summary.aborted)
        &&& self.corrected_hist_b64@ == text::base64_text(finals.last_hist_v2@)
        &&& self.uncorrected_hist_b64@ == text::base64_text(finals.last_uncorrected_hist_v2@)
    }
}

/// The final figures of a run from its latest ticks and its dispatch's summary.
pub fn finalize(finals: &FinalsAcc, summary: &DispatchSummary) -> (f: FinalizeFleet)
    requires
        finals.wf(),
    ensures
        f.finalizes(*finals, *summary),
{
    let p99_us: i64 = #[verifier::truncate]
    (finals.last_p99_us as i64);
    FinalizeFleet {
        effective_rps: finals.last_achieved_rps,
        p50_us: #[verifier::truncate]
        (finals.last_p50_us as i64),
        p95_us: #[verifier::truncate]
        (finals.last_p95_us as i64),
        p99_us,
        p999_us: p99_us,
        total_requests: #[verifier::truncate]
        (summary.total_completed as i64),
        total_pass: #[verifier::truncate]
        (summary.total_pass as i64),
        cliff_rps: finals.cliff_rps(),
        status: if summary.aborted {
            "aborted".to_owned()
        } else {
            "completed".to_owned()
        },
        corrected_hist_b64: text::to_base64(finals.last_hist_v2.as_slice()),
        uncorrected_hist_b64: text::to_base64(finals.last_uncorrected_hist_v2.as_slice()),
    }
}

/// The buckets of all ticks in a row.
pub open spec fn all_buckets(ticks: Seq<AggregatedTick>) -> Seq<BucketCounts>
    decreases ticks.len(),
{
    if ticks.len() == 0 {
        Seq::empty()
    } else {
        all_buckets(ticks.drop_last()) + cliff::buckets_of(ticks.last().buckets@)
    }
}

/// `states` are the figures before the first of `ticks` and after each of them.
pub open spec fn followed(states: Seq<FinalsAcc>, ticks: Seq<AggregatedTick>) -> bool {
    &&& states.len() == ticks.len() + 1
    &&& states.first().last_p50_us == 0 && states.first().last_p95_us == 0
    &&& states.first().last_p99_us == 0 && states.first().last_achieved_rps == 0
    &&& states.first().last_hist_v2@.len() == 0
    &&& states.first().last_uncorrected_hist_v2@.len() == 0
    &&& states.first().buckets@ == Map::<u64, BucketCounts>::empty()
    &&& forall|i: int|
        0 <= i < ticks.len() ==> states[i].observes(#[trigger] ticks[i], states[i + 1])
}

proof fn lemma_followed(states: Seq<FinalsAcc>, ticks: Seq<AggregatedTick>)
    requires
        followed(states, ticks),
        ticks.len() > 0,
    ensures
        followed(states.drop_last(), ticks.drop_last()),
        states[ticks.len() - 1].observes(ticks.last(), states.last()),
        states.drop_last().last() == states[ticks.len() - 1],
{
    let n = ticks.len() - 1;
    assert forall|i: int| 0 <= i < n implies states.drop_last()[i].observes(
        #[trigger] ticks.drop_last()[i],
        states.drop_last()[i + 1],
    ) by {
        assert(states[i].observes(ticks[i], states[i + 1]));
    }
    assert(states[n].observes(ticks[n], states[n + 1]));
}

/// A run's last figures are those of its latest ticks: the rate of the last tick, and
/// the percentiles and the snapshots of the last tick that had any, the corrected
/// snapshot and the uncorrected one each by itself. Where no tick had one, there is
/// none.
pub proof fn law_finals_are_the_latest_there_are(
    states: Seq<FinalsAcc>,
    ticks: Seq<AggregatedTick>,
    at: int,
)
    requires
        followed(states, ticks),
        -1 <= at < ticks.len(),
    ensures
        ticks.len() > 0 ==> states.last().last_achieved_rps == ticks.last().achieved_rps_1s,
        (forall|i: int|
            at < i < ticks.len() ==> (#[trigger] ticks[i]).percentiles_so_far.p99_us == 0) ==> {
            &&& at >= 0 && ticks[at].percentiles_so_far.p99_us > 0 ==> {
                &&& states.last().last_p50_us == ticks[at].percentiles_so_far.p50_us
                &&& states.last().last_p95_us == ticks[at].percentiles_so_far.p95_us
                &&& states.last().last_p99_us == ticks[at].percentiles_so_far.p99_us
            }
            &&& at == -1 ==> states.last().last_p99_us == 0
        },
        (forall|i: int|
            at < i < ticks.len() ==> (#[trigger] ticks[i]).merged_hist_v2@.len() == 0) ==> {
            &&& at >= 0 && ticks[at].merged_hist_v2@.len() > 0 ==> states.last().last_hist_v2@
                == ticks[at].merged_hist_v2@
            &&& at == -1 ==> states.last().last_hist_v2@.len() == 0
        },
        (forall|i: int|
            at < i < ticks.len() ==> (#[trigger] ticks[i]).merged_uncorrected_hist_v2@.len() == 0)
            ==> {
            &&& at >= 0 && ticks[at].merged_uncorrected_hist_v2@.len() > 0
                ==> states.last().last_uncorrected_hist_v2@ == ticks[at].merged_uncorrected_hist_v2@
            &&& at == -1 ==> states.last().last_uncorrected_hist_v2@.len() == 0
        },
    decreases ticks.len(),
{
    if ticks.len() > 0 {
        lemma_followed(states, ticks);
        let n = ticks.len() - 1;
        if at < n {
            let rest = ticks.drop_last();
            law_finals_are_the_latest_there_are(states.drop_last(), rest, at);
            assert(ticks[n] == ticks.last());
            assert(forall|i: int| at < i < rest.len() ==> #[trigger] rest[i] == ticks[i]);
        }
    }
}

proof fn lemma_accumulated_in_a_row(
    m: Map<u64, BucketCounts>,
    a: Seq<BucketCounts>,
    b: Seq<BucketCounts>,
)
    ensures
        cliff::accumulated(m, a + b) == cliff::accumulated(cliff::accumulated(m, a), b),
    decreases b.len(),
{
    if b.len() == 0 {
        assert(a + b =~= a);
    } else {
        lemma_accumulated_in_a_row(m, a, b.drop_last());
        assert((a + b).drop_last() =~= a + b.drop_last());
    }
}

/// A run's buckets are those of all its ticks.
pub proof fn law_finals_hold_the_buckets_of_every_tick(
    states: Seq<FinalsAcc>,
    ticks: Seq<AggregatedTick>,
)
    requires
        followed(states, ticks),
    ensures
        states.last().buckets@ == cliff::accumulated(Map::empty(), all_buckets(ticks)),
    decreases ticks.len(),
{
    if ticks.len() > 0 {
        lemma_followed(states, ticks);
        law_finals_hold_the_buckets_of_every_tick(states.drop_last(), ticks.drop_last());
        lemma_accumulated_in_a_row(
            Map::empty(),
            all_buckets(ticks.drop_last()),
            cliff::buckets_of(ticks.last().buckets@),
        );
    }
}

/// The cliff told at the end of a run is that of all its ticks together: the middle
/// of the lowest bucket that has thirty responses or more over the whole run, rate
/// limited ones left out, of which fewer than 95 percent passed.
pub proof fn law_the_final_cliff_is_that_of_the_whole_run(
    f: FinalizeFleet,
    summary: DispatchSummary,
    states: Seq<FinalsAcc>,
    ticks: Seq<AggregatedTick>,
) -> (at: u64)
    requires
        followed(states, ticks),
        f.finalizes(states.last(), summary),
        cliff::all_addable(Map::empty(), all_buckets(ticks)),
        forall|i: int|
            0 <= i < all_buckets(ticks).len() ==> (#[trigger] all_buckets(ticks)[i]).rate_limited
                <= all_buckets(ticks)[i].total,
    ensures
        f.cliff_rps matches Some(c) ==> {
            &&& cliff::fails_over(all_buckets(ticks), at, 95, 30)
            &&& exists|i: int|
                0 <= i < all_buckets(ticks).len() && (#[trigger] all_buckets(ticks)[i]).rps_lo
                    == at && 2 * c <= at + all_buckets(ticks)[i].rps_hi <= 2 * c + 1
        },
        f.cliff_rps is Some ==> forall|edge: u64|
            edge < at ==> !#[trigger] cliff::fails_over(all_buckets(ticks), edge, 95, 30),
        f.cliff_rps is None ==> forall|edge: u64|
            !#[trigger] cliff::fails_over(all_buckets(ticks), edge, 95, 30),
{
    law_finals_hold_the_buckets_of_every_tick(states, ticks);
    cliff::law_the_cliff_is_the_lowest_failing_load(all_buckets(ticks), 95, 30, f.cliff_rps)
}

/// The final figures of a dispatched run are those of its last ticks and of its
/// workers' totals, and it ended aborted if and only if it was aborted.
pub proof fn law_final_figures_are_the_last_ones(
    f: FinalizeFleet,
    finals: FinalsAcc,
    summary: DispatchSummary,
)
    requires
        f.finalizes(finals, summary),
        finals.last_p50_us <= i64::MAX,
        finals.last_p95_us <= i64::MAX,
        finals.last_p99_us <= i64::MAX,
        summary.total_completed <= i64::MAX,
        summary.total_pass <= i64::MAX,
    ensures
        f.effective_rps == finals.last_achieved_rps,
        f.p50_us as int == finals.last_p50_us,
        f.p95_us as int == finals.last_p95_us,
        f.p99_us as int == finals.last_p99_us,
        f.p999_us as int == finals.last_p99_us,
        f.total_requests as int == summary.total_completed,
        f.total_pass as int == summary.total_pass,
        summary.aborted ==> f.status@ == "aborted"@,
        !summary.aborted ==> f.status@ == "completed"@,
        f.corrected_hist_b64@ == text::base64_text(finals.last_hist_v2@),
        f.uncorrected_hist_b64@ == text::base64_text(finals.last_uncorrected_hist_v2@),
{
}

/// The answer to a run request gives the run's own totals, each under its own name.
pub proof fn law_the_answer_gives_the_totals(r: RunResponse, run_id: String, s: DispatchSummary)
    requires
        r.answers(run_id, s),
    ensures
        r.run_id@ == run_id@,
        r.workers_dispatched == s.workers_dispatched,
        r.workers_finished == s.workers_finished,
        r.total_completed == s.total_completed,
        r.total_pass == s.total_pass,
        r.total_fail_status == s.total_fail_status,
        r.total_fail_latency == s.total_fail_latency,
        r.total_fail_size == s.total_fail_size,
        r.total_fail_content_type == s.total_fail_content_type,
{
}

/// What is dispatched is what was asked for: target, rate, duration, connections,
/// limits, headers and start.
pub proof fn law_the_run_asked_for_is_dispatched(q: RunRequest, spec: DispatchSpec)
    requires
        q.asks_for(spec),
    ensures
        spec.run_id@ == q.run_id@,
        spec.target_url@ == q.target_url@,
        spec.target_method@ == q.target_method@,
        spec.target_rps.requests == q.target_rps.requests,
        spec.target_rps.per_us == q.target_rps.per_us,
        spec.duration_s == q.duration_s,
        spec.connections == q.connections,
        spec.keepalive == q.keepalive,
        spec.timeout_ms == q.timeout_ms,
        spec.expected_status@ == q.expected_status@,
        spec.max_latency_us == q.max_latency_us,
        spec.min_body_bytes == q.min_body_bytes,
        spec.max_body_bytes == q.max_body_bytes,
        spec.content_type == q.content_type,
        text::pairs(spec.target_headers@) == text::pairs(q.target_headers@),
        spec.epoch_unix_us == q.epoch_unix_us,
{
}

/// A request's figures go where it says, ticks to the place for ticks and the final
/// ones to the place for those; a run that cannot be dispatched is answered with 503
/// and the reason; and a worker is shown as it registered.
pub proof fn law_the_admin_side_tells_things_as_they_are(
    q: RunRequest,
    push: PushTargets,
    body: ErrorBody,
    e: DispatchError,
    view: WorkerView,
    w: coordinator::WorkerRecord,
)
    requires
        q.reports_to(push),
        body.turns_down(e),
        view.shows(w),
    ensures
        push.run_id@ == q.run_id@,
        push.tick_url == q.control_tick_url,
        push.finalize_url == q.control_finalize_url,
        body.status == 503,
        body.error@ == "no registered workers"@,
        view.worker_id@ == w.worker_id,
        view.address@ == w.address,
        view.contract_version@ == w.contract_version,
        view.max_rps == w.max_rps,
{
}

} // verus!

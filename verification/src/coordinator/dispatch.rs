//! Dispatching a run to the fleet and adding up what comes back.
//!
//! Every registered worker gets an equal share of the rate. Their reports are
//! gathered tick by tick; a tick goes out once every worker has reported it. The
//! final totals are added up from each worker's own reports, so a worker that
//! dies takes no other worker's counts with it, and nothing is made up for it.

use vstd::prelude::*;
use vstd::string::*;

use crate::coordinator::{self, CoordinatorState, RunHandle, Worker, CONTRACT_VERSION};
use crate::hist::{self, SnapshotMerge};
use crate::proto::{
    AssertSpec, Assignment, HttpMethod, Partial, RateLimitAction, RateLimitPolicy, RpsBucket,
    Target, LOAD_MODEL_OPEN,
};
use crate::rate::{self, Rate};
use crate::run::{self, Bucket};
use crate::tally::{self, Counts, Tally};
use crate::worker::{RlAction, RunSpec};
use crate::{response, target, text, worker_node};

verus! {

/// A run to dispatch.
#[derive(Debug, Clone)]
pub struct DispatchSpec {
    pub run_id: String,
    pub target_url: String,
    pub target_method: String,
    pub target_rps: Rate,
    pub duration_s: u64,
    pub connections: u32,
    pub keepalive: bool,
    pub timeout_ms: u32,
    pub expected_status: Vec<i32>,
    pub max_latency_us: Option<i64>,
    pub min_body_bytes: Option<i32>,
    pub max_body_bytes: Option<i32>,
    pub content_type: Option<String>,
    /// Request headers for the target. Never stored or logged.
    pub target_headers: Vec<(String, String)>,
    /// When the run starts, in microseconds of Unix time; 0 for now.
    pub epoch_unix_us: i64,
}

/// Why a run cannot be dispatched.
#[derive(Debug, Clone, Copy, PartialEq, Eq, Structural)]
pub enum DispatchError {
    NoWorkers,
}

impl DispatchError {
    pub open spec fn text(self) -> Seq<char> {
        "no registered workers"@
    }

    pub fn message(&self) -> (s: &'static str)
        ensures
            s@ == self.text(),
    {
        match self {
            DispatchError::NoWorkers => "no registered workers",
        }
    }
}

/// The number of the method with this name, in any case; GET's where there is
/// none.
pub open spec fn method_number(name: Seq<char>) -> i32 {
    let up = text::uppered(name);
    if up == "POST"@ {
        HttpMethod::Post.number()
    } else if up == "PUT"@ {
        HttpMethod::Put.number()
    } else if up == "PATCH"@ {
        HttpMethod::Patch.number()
    } else if up == "DELETE"@ {
        HttpMethod::Delete.number()
    } else if up == "HEAD"@ {
        HttpMethod::Head.number()
    } else {
        HttpMethod::Get.number()
    }
}

/// The number of the method with this name.
pub fn method_from_name(name: &str) -> (n: i32)
    ensures
        n == method_number(name@),
{
    let up: String = text::to_upper(name);
    if text::same(&up, "POST") {
        HttpMethod::Post.to_i32()
    } else if text::same(&up, "PUT") {
        HttpMethod::Put.to_i32()
    } else if text::same(&up, "PATCH") {
        HttpMethod::Patch.to_i32()
    } else if text::same(&up, "DELETE") {
        HttpMethod::Delete.to_i32()
    } else if text::same(&up, "HEAD") {
        HttpMethod::Head.to_i32()
    } else {
        HttpMethod::Get.to_i32()
    }
}

/// `a` gives `worker_id` its share of the run.
pub open spec fn assigns(
    a: Assignment,
    spec: DispatchSpec,
    worker_id: Seq<char>,
    share: Rate,
    epoch_unix_us: i64,
) -> bool {
    &&& a.run_id@ == spec.run_id@
    &&& a.worker_id@ == worker_id
    &&& a.contract_version@ == CONTRACT_VERSION@
    &&& a.target matches Some(t) && {
        &&& t.url@ == spec.target_url@
        &&& t.method == method_number(spec.target_method@)
        &&& text::pairs(t.headers@) == text::pairs(spec.target_headers@)
        &&& t.body@.len() == 0
        &&& t.timeout_ms == spec.timeout_ms as i32
        &&& t.verify_tls
    }
    &&& a.throughput == share
    &&& a.catch_up == (Rate { requests: (2 * share.requests) as u64, per_us: share.per_us })
    &&& a.load_model == LOAD_MODEL_OPEN
    &&& a.connections == spec.connections as i32
    &&& a.keepalive == spec.keepalive
    &&& a.epoch_unix_us == epoch_unix_us
    &&& a.duration_s == spec.duration_s as i32
    &&& a.warmup_s == 0
    &&& a.assertions matches Some(s) && {
        &&& s.max_latency_us == spec.max_latency_us
        &&& s.min_body_bytes == spec.min_body_bytes
        &&& s.max_body_bytes == spec.max_body_bytes
        &&& response::text_view(s.content_type) == response::text_view(spec.content_type)
        &&& s.expected_status@ == spec.expected_status@
        &&& s.sample_every_n == 0
        &&& !s.ship_bodies
        &&& s.max_sampled_body_bytes == 0
    }
    &&& a.rate_limit_policy == Some(
        RateLimitPolicy {
            action: RateLimitAction::RlBackoff.number(),
            max_backoff_ms: 5000,
            record_onset: true,
        },
    )
}

/// The assignment that gives `worker_id` its share of the run.
pub fn build_assignment(spec: &DispatchSpec, worker_id: &str, share: Rate, epoch_unix_us: i64) -> (a:
    Assignment)
    requires
        2 * share.requests <= u64::MAX,
    ensures
        assigns(a, *spec, worker_id@, share, epoch_unix_us),
{
    Assignment {
        run_id: spec.run_id.clone(),
        worker_id: worker_id.to_owned(),
        contract_version: CONTRACT_VERSION.to_owned(),
        target: Some(
            Target {
                url: spec.target_url.clone(),
                method: method_from_name(&spec.target_method),
                headers: text::copy_pairs(&spec.target_headers),
                body: Vec::new(),
                timeout_ms: #[verifier::truncate]
                (spec.timeout_ms as i32),
                verify_tls: true,
            },
        ),
        throughput: share,
        catch_up: share.doubled(),
        load_model: LOAD_MODEL_OPEN,
        connections: #[verifier::truncate]
        (spec.connections as i32),
        keepalive: spec.keepalive,
        epoch_unix_us,
        duration_s: #[verifier::truncate]
        (spec.duration_s as i32),
        warmup_s: 0,
        assertions: Some(
            AssertSpec {
                max_latency_us: spec.max_latency_us,
                min_body_bytes: spec.min_body_bytes,
                max_body_bytes: spec.max_body_bytes,
                content_type: match &spec.content_type {
                    Some(c) => Some(c.clone()),
                    None => None,
                },
                expected_status: spec.expected_status.clone(),
                sample_every_n: 0,
                ship_bodies: false,
                max_sampled_body_bytes: 0,
            },
        ),
        rate_limit_policy: Some(
            RateLimitPolicy {
                action: RateLimitAction::RlBackoff.to_i32(),
                max_backoff_ms: 5000,
                record_onset: true,
            },
        ),
    }
}

/// The name of a method that the protocol knows, in capitals; GET for any other.
pub open spec fn known_method(name: Seq<char>) -> Seq<char> {
    let up = text::uppered(name);
    if up == "POST"@ || up == "PUT"@ || up == "PATCH"@ || up == "DELETE"@ || up == "HEAD"@ {
        up
    } else {
        "GET"@
    }
}

/// A worker runs what was dispatched: the run that it makes of its assignment has
/// the dispatched target, method and assertions, at the worker's share of the
/// rate, for the same time over as many connections, and backs off when rate
/// limited. The protocol's numbers are 32 bits wide, and one connection at least
/// is opened.
pub proof fn law_worker_runs_what_was_dispatched(
    spec: DispatchSpec,
    worker_id: Seq<char>,
    share: Rate,
    epoch_unix_us: i64,
    a: Assignment,
    run: RunSpec,
)
    requires
        assigns(a, spec, worker_id, share, epoch_unix_us),
        worker_node::runs(a, run),
        spec.duration_s <= i32::MAX,
        0 < spec.connections <= i32::MAX,
        0 < spec.timeout_ms <= i32::MAX,
    ensures
        target::uri_parts(spec.target_url@) == Ok::<target::UriView, Seq<char>>(run.url@),
        run.method@ == known_method(spec.target_method@),
        text::pairs(run.headers@) == text::pairs(spec.target_headers@),
        run.target_rps == share,
        run.duration_s == spec.duration_s,
        run.connections == spec.connections,
        run.keepalive == spec.keepalive,
        run.timeout_us == spec.timeout_ms * 1000,
        run.expected_status@ == Seq::new(
            spec.expected_status@.len(),
            |i: int| spec.expected_status@[i] as u16,
        ),
        run.max_latency_us is Some <==> spec.max_latency_us is Some,
        spec.max_latency_us matches Some(us) ==> us >= 0 ==> run.max_latency_us == Some(us as u64),
        run.min_body_bytes is Some <==> spec.min_body_bytes is Some,
        spec.min_body_bytes matches Some(n) ==> n >= 0 ==> run.min_body_bytes == Some(n as u64),
        run.max_body_bytes is Some <==> spec.max_body_bytes is Some,
        spec.max_body_bytes matches Some(n) ==> n >= 0 ==> run.max_body_bytes == Some(n as u64),
        response::text_view(run.content_type) == response::text_view(spec.content_type),
        !run.ramp,
        run.rate_limit_action == RlAction::Backoff,
        run.max_backoff_ms == 5000,
        run.record_onset,
{
}

/// One worker's slice and where to send it.
#[derive(Debug)]
pub struct Slice {
    pub url: String,
    pub worker_id: String,
    pub assignment: Assignment,
}

impl DispatchSpec {
    /// The run's rate can be split over `workers` workers and doubled.
    pub open spec fn rate_fits(self, workers: nat) -> bool {
        &&& self.target_rps.per_us * workers <= u64::MAX
        &&& 2 * self.target_rps.requests <= u64::MAX
    }

    /// One worker's share of the rate.
    pub open spec fn share(self, workers: nat) -> Rate {
        Rate {
            requests: self.target_rps.requests,
            per_us: (self.target_rps.per_us * workers) as u64,
        }
    }

    /// When the run starts.
    pub open spec fn epoch(self, now_unix_us: i64) -> i64 {
        if self.epoch_unix_us != 0 {
            self.epoch_unix_us
        } else {
            now_unix_us
        }
    }

    /// Whether the run's rate can be split over `workers` workers and doubled.
    pub fn has_fitting_rate(&self, workers: usize) -> (b: bool)
        ensures
            b == self.rate_fits(workers as nat),
    {
        let n: u64 = workers as u64;
        proof {
            rate::lemma_product_fits(self.target_rps.per_us, n);
        }
        self.target_rps.per_us as u128 * n as u128 <= u64::MAX as u128 && self.target_rps.requests
            <= u64::MAX / 2
    }
}

/// `slices` divide the run among the workers, in order.
pub open spec fn divides(
    slices: Seq<Slice>,
    spec: DispatchSpec,
    workers: Seq<coordinator::WorkerRecord>,
    epoch_unix_us: i64,
) -> bool {
    &&& slices.len() == workers.len()
    &&& forall|i: int|
        0 <= i < slices.len() ==> {
            &&& (#[trigger] slices[i]).url@ == coordinator::dial_text(workers[i].address)
            &&& slices[i].worker_id@ == workers[i].worker_id
            &&& assigns(
                slices[i].assignment,
                spec,
                workers[i].worker_id,
                spec.share(workers.len()),
                epoch_unix_us,
            )
        }
}

/// The addresses of the workers, in order.
pub open spec fn addresses(workers: Seq<coordinator::WorkerRecord>) -> Seq<Seq<char>> {
    Seq::new(workers.len(), |i: int| workers[i].address)
}

/// The runs in flight after one was dispatched to these workers.
pub open spec fn noted(
    runs: Seq<coordinator::RunRecord>,
    run_id: Seq<char>,
    workers: Seq<coordinator::WorkerRecord>,
) -> Seq<coordinator::RunRecord> {
    coordinator::with_run(
        runs,
        coordinator::RunRecord {
            run_id,
            worker_addrs: addresses(workers),
            cancelled: false,
        },
    )
}

/// `r` is the run `spec`, planned at `now_unix_us`, divided among `workers`, and
/// `after` are the runs in flight from then on.
pub open spec fn planned(
    workers: Seq<coordinator::WorkerRecord>,
    runs: Seq<coordinator::RunRecord>,
    spec: DispatchSpec,
    now_unix_us: i64,
    r: Result<Vec<Slice>, DispatchError>,
    after: Seq<coordinator::RunRecord>,
) -> bool {
    &&& r is Err <==> workers.len() == 0
    &&& r matches Err(e) ==> e == DispatchError::NoWorkers && after == runs
    &&& r matches Ok(slices) ==> {
        &&& divides(slices@, spec, workers, spec.epoch(now_unix_us))
        &&& after == noted(runs, spec.run_id@, workers)
    }
}

/// Divide a run among the registered workers and note it as in flight. Without
/// workers there is nothing to dispatch to.
pub fn plan_dispatch(state: &mut CoordinatorState, spec: &DispatchSpec, now_unix_us: i64) -> (r:
    Result<Vec<Slice>, DispatchError>)
    requires
        old(state).wf(),
        spec.rate_fits(old(state).registry().len()),
    ensures
        final(state).wf(),
        final(state).registry() == old(state).registry(),
        planned(
            old(state).registry(),
            old(state).in_flight(),
            *spec,
            now_unix_us,
            r,
            final(state).in_flight(),
        ),
{
    let ghost registry = state.registry();
    let workers: Vec<Worker> = state.list_workers();
    if workers.len() == 0 {
        return Err(DispatchError::NoWorkers);
    }
    let share: Rate = spec.target_rps.split(workers.len() as u64);
    let epoch_unix_us: i64 = if spec.epoch_unix_us != 0 {
        spec.epoch_unix_us
    } else {
        now_unix_us
    };
    let mut slices: Vec<Slice> = Vec::new();
    let mut worker_addrs: Vec<String> = Vec::new();
    for i in 0..workers.len()
        invariant
            workers@.len() == registry.len(),
            forall|k: int| 0 <= k < workers@.len() ==> (#[trigger] workers@[k])@ == registry[k],
            share == spec.share(registry.len()),
            2 * share.requests <= u64::MAX,
            slices@.len() == i,
            worker_addrs@.len() == i,
            forall|k: int|
                0 <= k < i ==> {
                    &&& (#[trigger] slices@[k]).url@ == coordinator::dial_text(registry[k].address)
                    &&& slices@[k].worker_id@ == registry[k].worker_id
                    &&& assigns(
                        slices@[k].assignment,
                        *spec,
                        registry[k].worker_id,
                        share,
                        epoch_unix_us,
                    )
                },
            forall|k: int| 0 <= k < i ==> (#[trigger] worker_addrs@[k])@ == registry[k].address,
    {
        let w: &Worker = &workers[i];
        assert(w@ == registry[i as int]);
        slices.push(
            Slice {
                url: coordinator::dial_url(&w.address),
                worker_id: w.worker_id.clone(),
                assignment: build_assignment(spec, &w.worker_id, share, epoch_unix_us),
            },
        );
        worker_addrs.push(w.address.clone());
    }
    assert(text::texts(worker_addrs@) =~= addresses(registry));
    state.register_run(spec.run_id.clone(), RunHandle { worker_addrs, cancelled: false });
    Ok(slices)
}

/// The workers' shares make up the run's rate: together they offer exactly the
/// target.
pub proof fn law_shares_make_up_the_target(spec: DispatchSpec, workers: nat)
    requires
        spec.rate_fits(workers),
    ensures
        workers * spec.share(workers).requests * spec.target_rps.per_us
            == spec.target_rps.requests * spec.share(workers).per_us,
{
    let r = spec.target_rps.requests as int;
    let p = spec.target_rps.per_us as int;
    assert(0 <= p * workers) by (nonlinear_arith)
        requires
            p >= 0,
    ;
    assert(workers * r * p == r * (p * workers)) by (nonlinear_arith);
}

/// The counts of a bucket.
fn bucket_tally(b: &RpsBucket) -> (t: Tally)
    ensures
        t@ == b.counts(),
{
    Tally {
        total: b.total,
        pass: b.pass,
        fail_status: b.fail_status,
        fail_latency: b.fail_latency,
        fail_size: b.fail_size,
        fail_content_type: b.fail_content_type,
        rate_limited: b.rate_limited,
    }
}

/// All buckets of a report together, or `None` where they do not fit.
pub fn report_tally(p: &Partial) -> (r: Option<Tally>)
    ensures
        r is Some <==> p.counts().fits(),
        r matches Some(t) ==> t@ == p.counts(),
{
    let ghost all = Seq::new(p.buckets@.len(), |i: int| p.buckets@[i].counts());
    let mut sum: Tally = Tally::zero();
    let mut i: usize = 0;
    while i < p.buckets.len()
        invariant
            i <= p.buckets.len(),
            all == Seq::new(p.buckets@.len(), |i: int| p.buckets@[i].counts()),
            sum@ == Counts::sum(all.take(i as int)),
        decreases p.buckets.len() - i,
    {
        assert(all.take(i + 1).drop_last() =~= all.take(i as int));
        let t: Tally = bucket_tally(&p.buckets[i]);
        if !sum.can_absorb(&t) {
            proof {
                tally::lemma_part_at_most_sum(all, i + 1);
            }
            return None;
        }
        sum.absorb(&t);
        i = i + 1;
    }
    assert(all.take(all.len() as int) =~= all);
    Some(sum)
}

/// The lower of two onsets; one that is missing does not count.
pub open spec fn lower_onset(a: Option<u64>, b: Option<u64>) -> Option<u64> {
    match (a, b) {
        (Some(x), Some(y)) => Some(if x <= y {
            x
        } else {
            y
        }),
        (Some(x), None) => Some(x),
        (None, y) => y,
    }
}

/// The lower of two onsets.
pub fn min_onset(a: Option<u64>, b: Option<u64>) -> (r: Option<u64>)
    ensures
        r == lower_onset(a, b),
{
    match (a, b) {
        (Some(x), Some(y)) => Some(
            if x <= y {
                x
            } else {
                y
            },
        ),
        (Some(x), None) => Some(x),
        (None, y) => y,
    }
}

/// The onset that a report carries, if any.
fn report_onset(p: &Partial) -> (r: Option<u64>)
    ensures
        r == p.onset(),
{
    match &p.rate_limit {
        Some(rl) => rl.first_429_mrps,
        None => None,
    }
}

/// What one worker has reported over its whole stream.
#[derive(Debug, Clone, Copy, PartialEq, Eq, Structural)]
pub struct WorkerSummary {
    /// Whether the stream was closed as it should be.
    pub finished: bool,
    pub tally: Tally,
    pub first_429_mrps: Option<u64>,
}

impl WorkerSummary {
    pub fn new() -> (s: Self)
        ensures
            !s.finished,
            s.tally@ == Counts::zero(),
            s.first_429_mrps is None,
    {
        WorkerSummary { finished: false, tally: Tally::zero(), first_429_mrps: None }
    }

    /// Count one report in. Returns whether the counts still fit; where they do
    /// not, nothing changes.
    pub fn observe(&mut self, p: &Partial) -> (fits: bool)
        ensures
            fits == old(self).tally@.plus(p.counts()).fits(),
            fits ==> counted_in(*old(self), *p, *final(self)),
            !fits ==> *final(self) == *old(self),
    {
        proof {
            lemma_counts_nonnegative(*p);
        }
        match report_tally(p) {
            None => false,
            Some(t) => {
                if !self.tally.can_absorb(&t) {
                    return false;
                }
                self.tally.absorb(&t);
                self.first_429_mrps = min_onset(self.first_429_mrps, report_onset(p));
                if p.is_final {
                    self.finished = true;
                }
                true
            },
        }
    }
}

/// `after` is what `before` becomes when it counts the report `p` in.
pub open spec fn counted_in(before: WorkerSummary, p: Partial, after: WorkerSummary) -> bool {
    &&& after.tally@ == before.tally@.plus(p.counts())
    &&& after.finished == (before.finished || p.is_final)
    &&& after.first_429_mrps == lower_onset(before.first_429_mrps, p.onset())
}

/// A worker's total is the sum of its reports, its onset their lowest, and it has
/// finished if one of them closed the stream.
pub proof fn law_worker_total_is_the_sum_of_its_reports(
    states: Seq<WorkerSummary>,
    ps: Seq<Partial>,
)
    requires
        states.len() == ps.len() + 1,
        !states.first().finished,
        states.first().tally@ == Counts::zero(),
        states.first().first_429_mrps is None,
        forall|i: int|
            0 <= i < ps.len() ==> counted_in(states[i], #[trigger] ps[i], states[i + 1]),
    ensures
        states.last().tally@ == tick_counts(ps),
        states.last().first_429_mrps == lowest_onset(ps),
        states.last().finished <==> exists|i: int| 0 <= i < ps.len() && (#[trigger] ps[i]).is_final,
    decreases ps.len(),
{
    if ps.len() == 0 {
        assert(report_counts(ps).len() == 0);
    } else {
        let rest = ps.drop_last();
        let n = ps.len() - 1;
        assert forall|i: int| 0 <= i < rest.len() implies counted_in(
            states.drop_last()[i],
            #[trigger] rest[i],
            states.drop_last()[i + 1],
        ) by {
            assert(counted_in(states[i], ps[i], states[i + 1]));
        }
        law_worker_total_is_the_sum_of_its_reports(states.drop_last(), rest);
        assert(counted_in(states[n], ps[n], states[n + 1]));
        assert(report_counts(ps).drop_last() =~= report_counts(rest));
        if states.last().finished {
            if ps[n].is_final {
            } else {
                let i = choose|i: int| 0 <= i < rest.len() && (#[trigger] rest[i]).is_final;
                assert(ps[i].is_final);
            }
        }
        if exists|i: int| 0 <= i < ps.len() && (#[trigger] ps[i]).is_final {
            let i = choose|i: int| 0 <= i < ps.len() && (#[trigger] ps[i]).is_final;
            if i < rest.len() {
                assert(rest[i].is_final);
            }
        }
    }
}

proof fn lemma_counts_nonnegative(p: Partial)
    ensures
        p.counts().nonnegative(),
{
    let all = Seq::new(p.buckets@.len(), |i: int| p.buckets@[i].counts());
    tally::lemma_part_at_most_sum(all, all.len() as int);
    assert(all.take(all.len() as int) =~= all);
}

/// The fleet's counts of one tick.
#[derive(Debug, Clone, Copy, PartialEq, Eq, Structural)]
pub struct AggThisTick {
    pub total: u64,
    pub pass: u64,
    pub fail_status: u64,
    pub fail_latency: u64,
    pub fail_size: u64,
    pub fail_content_type: u64,
    /// Outside the correctness denominator.
    pub rate_limited: u64,
}

impl AggThisTick {
    pub open spec fn counts(self) -> Counts {
        Counts {
            total: self.total as int,
            pass: self.pass as int,
            fail_status: self.fail_status as int,
            fail_latency: self.fail_latency as int,
            fail_size: self.fail_size as int,
            fail_content_type: self.fail_content_type as int,
            rate_limited: self.rate_limited as int,
        }
    }
}

/// The fleet's corrected percentiles so far.
#[derive(Debug, Clone, Copy, PartialEq, Eq, Structural)]
pub struct AggPercentiles {
    pub p50_us: u64,
    pub p95_us: u64,
    pub p99_us: u64,
}

impl Default for AggPercentiles {
    fn default() -> (p: Self)
        ensures
            p == (AggPercentiles { p50_us: 0, p95_us: 0, p99_us: 0 }),
    {
        AggPercentiles { p50_us: 0, p95_us: 0, p99_us: 0 }
    }
}

/// The fleet's counts in one bucket of the load axis.
pub type AggBucket = Bucket;

/// One tick of the whole fleet.
#[derive(Debug, Clone)]
pub struct AggregatedTick {
    pub elapsed_s: u64,
    pub achieved_rps_1s: u64,
    pub completed_total: u64,
    pub pass_total: u64,
    pub fail_status_total: u64,
    pub this_tick: AggThisTick,
    pub percentiles_so_far: AggPercentiles,
    pub buckets: Vec<AggBucket>,
    /// The lowest rate offered at any worker's first rate-limit response, in
    /// thousandths.
    pub rate_limit_onset_mrps: Option<u64>,
    /// Snapshot of all corrected histograms merged.
    pub merged_hist_v2: Vec<u8>,
    /// Snapshot of all uncorrected histograms merged.
    pub merged_uncorrected_hist_v2: Vec<u8>,
}

/// What the fleet has counted over all ticks so far.
#[derive(Debug, Clone, Copy, PartialEq, Eq, Structural)]
pub struct Cumulative {
    pub completed: u64,
    pub pass: u64,
    pub fail_status: u64,
}

/// The corrected snapshots of the reports.
pub open spec fn corrected_snapshots(ps: Seq<Partial>) -> Seq<Seq<u8>> {
    Seq::new(ps.len(), |i: int| ps[i].corrected_hist@)
}

/// The uncorrected snapshots of the reports.
pub open spec fn uncorrected_snapshots(ps: Seq<Partial>) -> Seq<Seq<u8>> {
    Seq::new(ps.len(), |i: int| ps[i].uncorrected_hist@)
}

/// The counts of each report.
pub open spec fn report_counts(ps: Seq<Partial>) -> Seq<Counts> {
    Seq::new(ps.len(), |i: int| ps[i].counts())
}

/// The rates of the reports together.
pub open spec fn achieved(ps: Seq<Partial>) -> nat
    decreases ps.len(),
{
    if ps.len() == 0 {
        0
    } else {
        achieved(ps.drop_last()) + ps.last().achieved_rps as nat
    }
}

/// The lowest onset of the reports.
pub open spec fn lowest_onset(ps: Seq<Partial>) -> Option<u64>
    decreases ps.len(),
{
    if ps.len() == 0 {
        None
    } else {
        lower_onset(lowest_onset(ps.drop_last()), ps.last().onset())
    }
}

/// What the fleet counted in the reports of one tick.
pub open spec fn tick_counts(ps: Seq<Partial>) -> Counts {
    Counts::sum(report_counts(ps))
}

/// The counts of a tick, and those of all ticks up to it, fit.
pub open spec fn countable(ps: Seq<Partial>, cum: Cumulative) -> bool {
    &&& tick_counts(ps).fits()
    &&& cum.completed + tick_counts(ps).total <= u64::MAX
    &&& cum.pass + tick_counts(ps).pass <= u64::MAX
    &&& cum.fail_status + tick_counts(ps).fail_status <= u64::MAX
}

/// The percentiles of the merged snapshots; zeros where none could be merged.
pub open spec fn merged_percentiles(snapshots: Seq<Seq<u8>>) -> AggPercentiles {
    let (counts, any) = hist::merged_over(snapshots);
    if any {
        AggPercentiles {
            p50_us: hist::hist_quantile(hist::latency_layout(), counts, 500),
            p95_us: hist::hist_quantile(hist::latency_layout(), counts, 950),
            p99_us: hist::hist_quantile(hist::latency_layout(), counts, 990),
        }
    } else {
        AggPercentiles { p50_us: 0, p95_us: 0, p99_us: 0 }
    }
}

/// `bytes` are the snapshot of the merged snapshots; empty where none could be
/// merged.
pub open spec fn merged_snapshot(bytes: Seq<u8>, snapshots: Seq<Seq<u8>>) -> bool {
    let (counts, any) = hist::merged_over(snapshots);
    if any {
        hist::is_snapshot(bytes, hist::latency_layout(), counts)
    } else {
        bytes.len() == 0
    }
}

/// `t` is the tick that adds up the reports `ps`, `cum` having been counted
/// before.
pub open spec fn aggregates(t: AggregatedTick, tick_n: u64, ps: Seq<Partial>, cum: Cumulative)
    -> bool {
    let this = tick_counts(ps);
    let rps = rate::clamp_u64(achieved(ps)) as u64;
    &&& t.elapsed_s == tick_n
    &&& t.achieved_rps_1s == rps
    &&& t.completed_total == cum.completed + this.total
    &&& t.pass_total == cum.pass + this.pass
    &&& t.fail_status_total == cum.fail_status + this.fail_status
    &&& t.this_tick.counts() == this
    &&& t.percentiles_so_far == merged_percentiles(corrected_snapshots(ps))
    &&& t.percentiles_so_far.p50_us <= t.percentiles_so_far.p95_us <= t.percentiles_so_far.p99_us
    &&& t.buckets@ == seq![
        AggBucket {
            rps_lo: run::bucket_lo(rps),
            rps_hi: run::bucket_hi(run::bucket_lo(rps)),
            total: t.this_tick.total,
            pass: t.this_tick.pass,
            fail_status: t.this_tick.fail_status,
            fail_latency: t.this_tick.fail_latency,
            fail_size: t.this_tick.fail_size,
            fail_content_type: t.this_tick.fail_content_type,
            rate_limited: t.this_tick.rate_limited,
        },
    ]
    &&& t.rate_limit_onset_mrps == lowest_onset(ps)
    &&& merged_snapshot(t.merged_hist_v2@, corrected_snapshots(ps))
    &&& merged_snapshot(t.merged_uncorrected_hist_v2@, uncorrected_snapshots(ps))
}

/// Add up the reports of one tick. `None` where the counts do not fit; nothing
/// changes then.
pub fn aggregate_tick(tick_n: u64, partials: &Vec<Partial>, cum: &mut Cumulative) -> (r: Option<
    AggregatedTick,
>)
    ensures
        r is Some <==> countable(partials@, *old(cum)),
        r matches Some(t) ==> {
            &&& aggregates(t, tick_n, partials@, *old(cum))
            &&& *final(cum) == (Cumulative {
                completed: t.completed_total,
                pass: t.pass_total,
                fail_status: t.fail_status_total,
            })
        },
        r is None ==> *final(cum) == *old(cum),
{
    let ghost ps = partials@;
    let ghost all = report_counts(ps);
    let mut this: Tally = Tally::zero();
    let mut rps: u64 = 0;
    let mut onset: Option<u64> = None;
    let mut corrected: SnapshotMerge = SnapshotMerge::new();
    let mut uncorrected: SnapshotMerge = SnapshotMerge::new();
    let mut i: usize = 0;
    while i < partials.len()
        invariant
            ps == partials@,
            all == report_counts(ps),
            i <= partials.len(),
            corrected.wf(),
            uncorrected.wf(),
            corrected.seen() == corrected_snapshots(ps).take(i as int),
            uncorrected.seen() == uncorrected_snapshots(ps).take(i as int),
            this@ == Counts::sum(all.take(i as int)),
            rps == rate::clamp_u64(achieved(ps.take(i as int))),
            onset == lowest_onset(ps.take(i as int)),
            *cum == *old(cum),
        decreases partials.len() - i,
    {
        let p: &Partial = &partials[i];
        assert(ps.take(i + 1).drop_last() =~= ps.take(i as int));
        assert(all.take(i + 1).drop_last() =~= all.take(i as int));
        proof {
            assert forall|k: int| 0 <= k < all.len() implies #[trigger] all[k].nonnegative() by {
                lemma_counts_nonnegative(ps[k]);
            }
            tally::lemma_part_at_most_sum(all, i + 1);
            tally::lemma_part_at_most_sum(all, i as int);
            assert(Counts::sum(all.take(i + 1)) == Counts::sum(all.take(i as int)).plus(p.counts()));
            lemma_counts_nonnegative(*p);
        }
        let t: Tally = match report_tally(p) {
            Some(t) => t,
            None => return None,
        };
        if !this.can_absorb(&t) {
            return None;
        }
        this.absorb(&t);
        corrected.merge(p.corrected_hist.as_slice());
        uncorrected.merge(p.uncorrected_hist.as_slice());
        assert(corrected_snapshots(ps).take(i + 1) =~= corrected_snapshots(ps).take(i as int).push(
            p.corrected_hist@,
        ));
        assert(uncorrected_snapshots(ps).take(i + 1) =~= uncorrected_snapshots(ps).take(
            i as int,
        ).push(p.uncorrected_hist@));
        rps = rps.saturating_add(p.achieved_rps);
        onset = min_onset(onset, report_onset(p));
        i = i + 1;
    }
    proof {
        assert(ps.take(ps.len() as int) =~= ps);
        assert(all.take(all.len() as int) =~= all);
        assert(corrected_snapshots(ps).take(ps.len() as int) =~= corrected_snapshots(ps));
        assert(uncorrected_snapshots(ps).take(ps.len() as int) =~= uncorrected_snapshots(ps));
    }
    if this.total > u64::MAX - cum.completed || this.pass > u64::MAX - cum.pass || this.fail_status
        > u64::MAX - cum.fail_status {
        return None;
    }
    cum.completed = cum.completed + this.total;
    cum.pass = cum.pass + this.pass;
    cum.fail_status = cum.fail_status + this.fail_status;
    let mut buckets: Vec<AggBucket> = Vec::new();
    buckets.push(Bucket::from_tally(rps, &this));
    let percentiles_so_far: AggPercentiles = AggPercentiles {
        p50_us: corrected.percentile(500),
        p95_us: corrected.percentile(950),
        p99_us: corrected.percentile(990),
    };
    let merged_hist_v2: Vec<u8> = corrected.snapshot();
    let merged_uncorrected_hist_v2: Vec<u8> = uncorrected.snapshot();
    Some(
        AggregatedTick {
            elapsed_s: tick_n,
            achieved_rps_1s: rps,
            completed_total: cum.completed,
            pass_total: cum.pass,
            fail_status_total: cum.fail_status,
            this_tick: AggThisTick {
                total: this.total,
                pass: this.pass,
                fail_status: this.fail_status,
                fail_latency: this.fail_latency,
                fail_size: this.fail_size,
                fail_content_type: this.fail_content_type,
                rate_limited: this.rate_limited,
            },
            percentiles_so_far,
            buckets,
            rate_limit_onset_mrps: onset,
            merged_hist_v2,
            merged_uncorrected_hist_v2,
        },
    )
}

/// The reports of one tick that have come in so far.
#[derive(Debug)]
struct Pending {
    tick: u64,
    worker_ids: Vec<String>,
    partials: Vec<Partial>,
}

/// The reports of one tick: whose they are, and what they say.
pub struct Reports {
    pub worker_ids: Seq<Seq<char>>,
    pub partials: Seq<Partial>,
}

/// Where the worker's report stands; the length where there is none.
pub open spec fn report_at(worker_ids: Seq<Seq<char>>, id: Seq<char>) -> int
    decreases worker_ids.len(),
{
    if worker_ids.len() == 0 {
        0
    } else if worker_ids.first() == id {
        0
    } else {
        1 + report_at(worker_ids.drop_first(), id)
    }
}

impl Reports {
    pub open spec fn none() -> Reports {
        Reports { worker_ids: Seq::empty(), partials: Seq::empty() }
    }

    /// With the worker's report filed, in place of an earlier one.
    pub open spec fn filed(self, id: Seq<char>, p: Partial) -> Reports {
        let at = report_at(self.worker_ids, id);
        if at < self.worker_ids.len() {
            Reports { partials: self.partials.update(at, p), ..self }
        } else {
            Reports { worker_ids: self.worker_ids.push(id), partials: self.partials.push(p) }
        }
    }
}

/// No id twice.
pub open spec fn distinct(ids: Seq<Seq<char>>) -> bool {
    forall|i: int, j: int| 0 <= i < j < ids.len() ==> #[trigger] ids[i] != #[trigger] ids[j]
}

impl Pending {
    spec fn reports(self) -> Reports {
        Reports { worker_ids: text::texts(self.worker_ids@), partials: self.partials@ }
    }
}

spec fn has_tick(s: Seq<Pending>, tick: u64) -> bool {
    exists|i: int| 0 <= i < s.len() && (#[trigger] s[i]).tick == tick
}

spec fn tick_at(s: Seq<Pending>, tick: u64) -> int {
    choose|i: int| 0 <= i < s.len() && (#[trigger] s[i]).tick == tick
}

spec fn pending_map(s: Seq<Pending>) -> Map<u64, Reports> {
    Map::new(|tick: u64| has_tick(s, tick), |tick: u64| s[tick_at(s, tick)].reports())
}

spec fn distinct_ticks(s: Seq<Pending>) -> bool {
    forall|i: int, j: int|
        0 <= i < j < s.len() ==> (#[trigger] s[i]).tick != (#[trigger] s[j]).tick
}

/// The counts of a tick do not fit.
#[derive(Debug, Clone, Copy, PartialEq, Eq, Structural)]
pub struct CountOverflow;

/// Gathers the workers' reports, tick by tick.
#[derive(Debug)]
pub struct TickAggregator {
    num_workers: usize,
    pending: Vec<Pending>,
    cum: Cumulative,
}

/// The reports gathered for a tick.
pub open spec fn gathered(pending: Map<u64, Reports>, tick: u64) -> Reports {
    if pending.dom().contains(tick) {
        pending[tick]
    } else {
        Reports::none()
    }
}

/// What becomes of the report `p` of the worker `id`: `before` are the ticks that a
/// fleet of `fleet` workers has reported in part, and `counted` is what went out.
pub open spec fn takes_in(
    fleet: nat,
    before: Map<u64, Reports>,
    counted: Cumulative,
    id: Seq<char>,
    p: Partial,
    r: Result<Option<AggregatedTick>, CountOverflow>,
    after: Map<u64, Reports>,
    counted_after: Cumulative,
) -> bool {
    let reports = gathered(before, p.tick).filed(id, p);
    if p.is_final {
        &&& r == Ok::<Option<AggregatedTick>, CountOverflow>(None)
        &&& after == before
        &&& counted_after == counted
    } else if reports.worker_ids.len() != fleet {
        &&& r == Ok::<Option<AggregatedTick>, CountOverflow>(None)
        &&& after == before.insert(p.tick, reports)
        &&& counted_after == counted
    } else {
        &&& after == before.remove(p.tick)
        &&& r is Err <==> !countable(reports.partials, counted)
        &&& r is Err ==> counted_after == counted
        &&& r matches Ok(t) ==> {
            &&& t is Some
            &&& aggregates(t->0, p.tick, reports.partials, counted)
            &&& counted_after == (Cumulative {
                completed: t->0.completed_total,
                pass: t->0.pass_total,
                fail_status: t->0.fail_status_total,
            })
            &&& distinct(reports.worker_ids)
        }
    }
}

impl TickAggregator {
    /// How many workers there are.
    pub closed spec fn fleet(self) -> nat {
        self.num_workers as nat
    }

    /// The ticks that some workers have reported and others have not.
    pub closed spec fn pending(self) -> Map<u64, Reports> {
        pending_map(self.pending@)
    }

    /// What has been counted over all ticks that went out.
    pub closed spec fn counted(self) -> Cumulative {
        self.cum
    }

    /// A pending tick has one report each from some of the workers, not from all
    /// of them.
    pub closed spec fn wf(self) -> bool {
        &&& distinct_ticks(self.pending@)
        &&& forall|i: int|
            0 <= i < self.pending@.len() ==> {
                let r = (#[trigger] self.pending@[i]).reports();
                &&& r.worker_ids.len() == r.partials.len()
                &&& (r.worker_ids.len() < self.num_workers || self.num_workers == 0)
                &&& distinct(r.worker_ids)
            }
    }

    pub fn new(num_workers: usize) -> (a: Self)
        ensures
            a.wf(),
            a.fleet() == num_workers,
            a.pending() == Map::<u64, Reports>::empty(),
            a.counted() == (Cumulative { completed: 0, pass: 0, fail_status: 0 }),
    {
        let a: TickAggregator = TickAggregator {
            num_workers,
            pending: Vec::new(),
            cum: Cumulative { completed: 0, pass: 0, fail_status: 0 },
        };
        assert(a.pending() =~= Map::<u64, Reports>::empty());
        a
    }

    fn take_pending(&mut self, tick: u64) -> (p: Pending)
        requires
            old(self).wf(),
        ensures
            final(self).wf(),
            final(self).num_workers == old(self).num_workers,
            final(self).cum == old(self).cum,
            final(self).pending() == old(self).pending().remove(tick),
            p.tick == tick,
            p.reports() == gathered(old(self).pending(), tick),
            p.reports().worker_ids.len() == p.reports().partials.len(),
            distinct(p.reports().worker_ids),
    {
        let ghost before = self.pending@;
        let mut i: usize = 0;
        while i < self.pending.len()
            invariant
                old(self).wf(),
                *self == *old(self),
                before == self.pending@,
                i <= before.len(),
                forall|k: int| 0 <= k < i ==> (#[trigger] before[k]).tick != tick,
            decreases self.pending.len() - i,
        {
            if self.pending[i].tick == tick {
                let p: Pending = self.pending.remove(i);
                proof {
                    assert(before[i as int].tick == tick);
                    assert(self.pending@ =~= before.remove(i as int));
                    lemma_pending_remove(before, i as int);
                    lemma_pending_at(before, i as int);
                    assert forall|k: int| 0 <= k < self.pending@.len() implies {
                        let r = (#[trigger] self.pending@[k]).reports();
                        &&& r.worker_ids.len() == r.partials.len()
                        &&& (r.worker_ids.len() < self.num_workers || self.num_workers == 0)
                        &&& distinct(r.worker_ids)
                    } by {
                        let k0 = if k < i { k } else { k + 1 };
                        assert(self.pending@[k] == before[k0]);
                    }
                }
                return p;
            }
            i = i + 1;
        }
        proof {
            assert(!has_tick(before, tick));
            assert(self.pending() =~= self.pending().remove(tick));
        }
        let p: Pending = Pending { tick, worker_ids: Vec::new(), partials: Vec::new() };
        assert(p.reports().worker_ids =~= Seq::<Seq<char>>::empty());
        assert(p.reports().partials =~= Seq::<Partial>::empty());
        p
    }

    /// Take in one worker's report. Once every worker has reported the tick, its
    /// sum comes back; a closing report belongs to no tick.
    pub fn observe(&mut self, worker_id: String, p: Partial) -> (r: Result<
        Option<AggregatedTick>,
        CountOverflow,
    >)
        requires
            old(self).wf(),
        ensures
            final(self).wf(),
            final(self).fleet() == old(self).fleet(),
            takes_in(
                old(self).fleet(),
                old(self).pending(),
                old(self).counted(),
                worker_id@,
                p,
                r,
                final(self).pending(),
                final(self).counted(),
            ),
    {
        if p.is_final {
            return Ok(None);
        }
        let tick_n: u64 = p.tick;
        let ghost reports = gathered(self.pending(), p.tick).filed(worker_id@, p);
        let mut entry: Pending = self.take_pending(tick_n);
        let ghost ids = entry.reports().worker_ids;
        let ghost partials = entry.partials@;
        let mut at: usize = 0;
        while at < entry.worker_ids.len() && !text::same(&entry.worker_ids[at], &worker_id)
            invariant
                at <= entry.worker_ids@.len(),
                ids == text::texts(entry.worker_ids@),
                forall|k: int| 0 <= k < at ==> #[trigger] ids[k] != worker_id@,
            decreases entry.worker_ids.len() - at,
        {
            assert(ids[at as int] != worker_id@);
            at = at + 1;
        }
        proof {
            if at < ids.len() {
                assert(ids[at as int] == worker_id@);
            }
            lemma_report_at_is(ids, worker_id@, at as int);
        }
        if at < entry.worker_ids.len() {
            entry.partials.set(at, p);
        } else {
            entry.worker_ids.push(worker_id);
            entry.partials.push(p);
            assert(entry.reports().worker_ids =~= ids.push(worker_id@));
        }
        assert(entry.reports().worker_ids =~= reports.worker_ids);
        assert(entry.reports().partials =~= reports.partials);
        if entry.worker_ids.len() == self.num_workers {
            match aggregate_tick(tick_n, &entry.partials, &mut self.cum) {
                Some(t) => Ok(Some(t)),
                None => Err(CountOverflow),
            }
        } else {
            let ghost rest = self.pending@;
            self.pending.push(entry);
            proof {
                assert(self.pending@ =~= rest.push(entry));
                assert(!pending_map(rest).dom().contains(tick_n));
                lemma_pending_push(rest, entry);
                assert(old(self).pending().remove(tick_n).insert(tick_n, reports)
                    =~= old(self).pending().insert(tick_n, reports));
                assert forall|k: int| 0 <= k < self.pending@.len() implies {
                    let r = (#[trigger] self.pending@[k]).reports();
                    &&& r.worker_ids.len() == r.partials.len()
                    &&& (r.worker_ids.len() < self.num_workers || self.num_workers == 0)
                    &&& distinct(r.worker_ids)
                } by {
                    if k < rest.len() {
                        assert(self.pending@[k] == rest[k]);
                    }
                }
            }
            Ok(None)
        }
    }
}

proof fn lemma_report_at_is(ids: Seq<Seq<char>>, id: Seq<char>, at: int)
    requires
        0 <= at <= ids.len(),
        at < ids.len() ==> ids[at] == id,
        forall|k: int| 0 <= k < at ==> #[trigger] ids[k] != id,
    ensures
        report_at(ids, id) == at,
    decreases ids.len(),
{
    if ids.len() > 0 && at > 0 {
        assert(ids[0] != id);
        let rest = ids.drop_first();
        assert forall|k: int| 0 <= k < at - 1 implies #[trigger] rest[k] != id by {
            assert(rest[k] == ids[k + 1]);
        }
        lemma_report_at_is(rest, id, at - 1);
    }
}

proof fn lemma_pending_at(s: Seq<Pending>, i: int)
    requires
        distinct_ticks(s),
        0 <= i < s.len(),
    ensures
        has_tick(s, s[i].tick),
        tick_at(s, s[i].tick) == i,
{
    let k = tick_at(s, s[i].tick);
    assert(s[k].tick == s[i].tick);
    if k < i {
        assert(s[k].tick != s[i].tick);
    } else if i < k {
        assert(s[i].tick != s[k].tick);
    }
}

proof fn lemma_pending_remove(s: Seq<Pending>, at: int)
    requires
        distinct_ticks(s),
        0 <= at < s.len(),
    ensures
        distinct_ticks(s.remove(at)),
        pending_map(s.remove(at)) == pending_map(s).remove(s[at].tick),
{
    let after = s.remove(at);
    let m = pending_map(s).remove(s[at].tick);
    assert forall|i: int, j: int| 0 <= i < j < after.len() implies (#[trigger] after[i]).tick != (
    #[trigger] after[j]).tick by {
        let i0 = if i < at { i } else { i + 1 };
        let j0 = if j < at { j } else { j + 1 };
        assert(s[i0].tick != s[j0].tick);
    }
    assert forall|t: u64| pending_map(after).dom().contains(t) <==> m.dom().contains(t) by {
        if has_tick(after, t) {
            let i = tick_at(after, t);
            let i0 = if i < at { i } else { i + 1 };
            assert(s[i0].tick == t);
            if i0 < at {
                assert(s[i0].tick != s[at].tick);
            } else {
                assert(s[at].tick != s[i0].tick);
            }
        }
        if has_tick(s, t) && t != s[at].tick {
            let i = tick_at(s, t);
            let i1 = if i < at { i } else { i - 1 };
            assert(after[i1].tick == t);
        }
    }
    assert forall|t: u64| pending_map(after).dom().contains(t) implies pending_map(after)[t]
        == m[t] by {
        let i = tick_at(after, t);
        assert(has_tick(after, t));
        let i0 = if i < at { i } else { i + 1 };
        assert(after[i] == s[i0]);
        lemma_pending_at(s, i0);
    }
    assert(pending_map(after) =~= m);
}

proof fn lemma_pending_push(s: Seq<Pending>, p: Pending)
    requires
        distinct_ticks(s),
        !has_tick(s, p.tick),
    ensures
        distinct_ticks(s.push(p)),
        pending_map(s.push(p)) == pending_map(s).insert(p.tick, p.reports()),
{
    let after = s.push(p);
    let m = pending_map(s).insert(p.tick, p.reports());
    assert forall|i: int, j: int| 0 <= i < j < after.len() implies (#[trigger] after[i]).tick != (
    #[trigger] after[j]).tick by {
        if j < s.len() {
            assert(s[i].tick != s[j].tick);
        } else {
            assert(s[i].tick != p.tick);
        }
    }
    assert forall|t: u64| pending_map(after).dom().contains(t) <==> m.dom().contains(t) by {
        if has_tick(after, t) {
            let i = tick_at(after, t);
            if i < s.len() {
                assert(s[i].tick == t);
            }
        }
        if has_tick(s, t) {
            let i = tick_at(s, t);
            assert(after[i].tick == t);
        }
        assert(after[s.len() as int].tick == p.tick);
    }
    assert forall|t: u64| pending_map(after).dom().contains(t) implies pending_map(after)[t]
        == m[t] by {
        let i = tick_at(after, t);
        assert(has_tick(after, t));
        lemma_pending_at(after, i);
        if i < s.len() {
            assert(after[i] == s[i]);
            lemma_pending_at(s, i);
            assert(s[i].tick != p.tick);
        }
    }
    assert(pending_map(after) =~= m);
}

/// Something about a dispatch that its caller should know.
#[derive(Debug)]
pub struct Warning {
    pub code: String,
    pub message: String,
}

/// What came of a dispatch, over all workers that took part.
#[derive(Debug)]
pub struct DispatchSummary {
    pub workers_dispatched: usize,
    /// Workers whose stream was closed as it should be.
    pub workers_finished: usize,
    /// Workers whose stream ended without that.
    pub workers_lost: usize,
    pub aborted: bool,
    pub warnings: Vec<Warning>,
    pub total_completed: u64,
    pub total_pass: u64,
    pub total_fail_status: u64,
    pub total_fail_latency: u64,
    pub total_fail_size: u64,
    pub total_fail_content_type: u64,
    /// Never part of the correctness totals above.
    pub total_rate_limited: u64,
    /// The lowest onset of any worker, in thousandths.
    pub first_429_mrps: Option<u64>,
}

/// What a worker reported; nothing where its task came to grief.
pub open spec fn worker_counts(r: Option<WorkerSummary>) -> Counts {
    match r {
        Some(s) => s.tally@,
        None => Counts::zero(),
    }
}

/// What all workers reported.
pub open spec fn fleet_counts(results: Seq<Option<WorkerSummary>>) -> Counts {
    Counts::sum(Seq::new(results.len(), |i: int| worker_counts(results[i])))
}

/// The worker's stream was closed as it should be.
pub open spec fn has_finished(r: Option<WorkerSummary>) -> bool {
    r matches Some(s) && s.finished
}

/// How many workers finished.
pub open spec fn finished_count(results: Seq<Option<WorkerSummary>>) -> nat
    decreases results.len(),
{
    if results.len() == 0 {
        0
    } else {
        finished_count(results.drop_last()) + if has_finished(results.last()) {
            1nat
        } else {
            0
        }
    }
}

/// The lowest onset of any worker.
pub open spec fn fleet_onset(results: Seq<Option<WorkerSummary>>) -> Option<u64>
    decreases results.len(),
{
    if results.len() == 0 {
        None
    } else {
        lower_onset(
            fleet_onset(results.drop_last()),
            match results.last() {
                Some(s) => s.first_429_mrps,
                None => None,
            },
        )
    }
}

/// The message that tells how many workers ran to the end.
pub open spec fn lost_message(finished: nat, dispatched: nat) -> Seq<char> {
    "worker lost mid-run: ran "@ + text::decimal(finished) + " of "@ + text::decimal(dispatched)
        + " workers"@
}

impl DispatchSummary {
    /// The summary's counts.
    pub open spec fn counts(self) -> Counts {
        Counts {
            total: self.total_completed as int,
            pass: self.total_pass as int,
            fail_status: self.total_fail_status as int,
            fail_latency: self.total_fail_latency as int,
            fail_size: self.total_fail_size as int,
            fail_content_type: self.total_fail_content_type as int,
            rate_limited: self.total_rate_limited as int,
        }
    }

    /// The summary of what the workers reported.
    pub open spec fn summarises(self, results: Seq<Option<WorkerSummary>>, aborted: bool) -> bool {
        let finished = finished_count(results);
        &&& self.workers_dispatched == results.len()
        &&& self.workers_finished == finished
        &&& self.workers_lost == results.len() - finished
        &&& self.aborted == aborted
        &&& self.counts() == fleet_counts(results)
        &&& self.first_429_mrps == fleet_onset(results)
        &&& if finished < results.len() {
            &&& self.warnings@.len() == 1
            &&& self.warnings@[0].code@ == "WORKER_LOST"@
            &&& self.warnings@[0].message@ == lost_message(finished, results.len())
        } else {
            self.warnings@.len() == 0
        }
    }
}

/// Add up what the workers reported. `None` where the counts do not fit.
pub fn summarise(results: &Vec<Option<WorkerSummary>>, aborted: bool) -> (r: Option<DispatchSummary>)
    ensures
        r is Some <==> fleet_counts(results@).fits(),
        r matches Some(s) ==> s.summarises(results@, aborted),
{
    let ghost all = Seq::new(results@.len(), |i: int| worker_counts(results@[i]));
    let mut sum: Tally = Tally::zero();
    let mut finished: usize = 0;
    let mut onset: Option<u64> = None;
    let mut i: usize = 0;
    while i < results.len()
        invariant
            i <= results.len(),
            all == Seq::new(results@.len(), |i: int| worker_counts(results@[i])),
            sum@ == Counts::sum(all.take(i as int)),
            finished == finished_count(results@.take(i as int)),
            finished <= i,
            onset == fleet_onset(results@.take(i as int)),
        decreases results.len() - i,
    {
        assert(all.take(i + 1).drop_last() =~= all.take(i as int));
        assert(results@.take(i + 1).drop_last() =~= results@.take(i as int));
        if let Some(w) = &results[i] {
            if !sum.can_absorb(&w.tally) {
                proof {
                    tally::lemma_part_at_most_sum(all, i + 1);
                }
                return None;
            }
            sum.absorb(&w.tally);
            onset = min_onset(onset, w.first_429_mrps);
            if w.finished {
                finished = finished + 1;
            }
        }
        i = i + 1;
    }
    assert(all.take(all.len() as int) =~= all);
    assert(results@.take(results@.len() as int) =~= results@);
    let mut warnings: Vec<Warning> = Vec::new();
    if finished < results.len() {
        let mut message: String = text::joined(
            "worker lost mid-run: ran ",
            text::decimal_text(finished as u64).as_str(),
        );
        message.append(" of ");
        message.append(text::decimal_text(results.len() as u64).as_str());
        message.append(" workers");
        warnings.push(Warning { code: "WORKER_LOST".to_owned(), message });
    }
    Some(
        DispatchSummary {
            workers_dispatched: results.len(),
            workers_finished: finished,
            workers_lost: results.len() - finished,
            aborted,
            warnings,
            total_completed: sum.total,
            total_pass: sum.pass,
            total_fail_status: sum.fail_status,
            total_fail_latency: sum.fail_latency,
            total_fail_size: sum.fail_size,
            total_fail_content_type: sum.fail_content_type,
            total_rate_limited: sum.rate_limited,
            first_429_mrps: onset,
        },
    )
}

/// `r` sums up the run `run_id`, which was among `runs`, and `after` are the runs from
/// then on.
pub open spec fn wound_up(
    runs: Seq<coordinator::RunRecord>,
    run_id: Seq<char>,
    results: Seq<Option<WorkerSummary>>,
    r: Option<DispatchSummary>,
    after: Seq<coordinator::RunRecord>,
) -> bool {
    &&& after == coordinator::without_run(runs, run_id)
    &&& coordinator::run_at(after, run_id) == after.len()
    &&& r is Some <==> fleet_counts(results).fits()
    &&& r matches Some(s) ==> s.summarises(results, coordinator::is_cancelled(runs, run_id))
}

/// A dispatch is over: forget the run and add up what the workers reported. It
/// counts as aborted if it was while in flight. `None` where the counts do not
/// fit.
pub fn close_dispatch(
    state: &mut CoordinatorState,
    run_id: &str,
    results: &Vec<Option<WorkerSummary>>,
) -> (r: Option<DispatchSummary>)
    requires
        old(state).wf(),
    ensures
        final(state).wf(),
        final(state).registry() == old(state).registry(),
        wound_up(old(state).in_flight(), run_id@, results@, r, final(state).in_flight()),
{
    let aborted: bool = state.is_run_cancelled(run_id);
    state.deregister_run(run_id);
    summarise(results, aborted)
}

/// A worker that dies takes only its own load with it, and none is made up for
/// it: the fleet's totals with one more worker that did not finish are the
/// totals without it plus what it reported.
pub proof fn law_a_lost_worker_adds_only_what_it_reported(
    results: Seq<Option<WorkerSummary>>,
    lost: Option<WorkerSummary>,
)
    requires
        !has_finished(lost),
    ensures
        fleet_counts(results.push(lost)) == fleet_counts(results).plus(worker_counts(lost)),
        finished_count(results.push(lost)) == finished_count(results),
        lost is None ==> fleet_counts(results.push(lost)) == fleet_counts(results),
{
    let with = results.push(lost);
    let all = Seq::new(with.len(), |i: int| worker_counts(with[i]));
    assert(all.drop_last() =~= Seq::new(results.len(), |i: int| worker_counts(results[i])));
    assert(with.drop_last() =~= results);
}

proof fn lemma_sum_remove(all: Seq<Counts>, at: int)
    requires
        0 <= at < all.len(),
    ensures
        Counts::sum(all) == Counts::sum(all.remove(at)).plus(all[at]),
    decreases all.len(),
{
    if at == all.len() - 1 {
        assert(all.remove(at) =~= all.drop_last());
    } else {
        lemma_sum_remove(all.drop_last(), at);
        assert(all.remove(at).drop_last() =~= all.drop_last().remove(at));
    }
}

proof fn lemma_achieved_remove(ps: Seq<Partial>, at: int)
    requires
        0 <= at < ps.len(),
    ensures
        achieved(ps) == achieved(ps.remove(at)) + ps[at].achieved_rps,
    decreases ps.len(),
{
    if at == ps.len() - 1 {
        assert(ps.remove(at) =~= ps.drop_last());
    } else {
        lemma_achieved_remove(ps.drop_last(), at);
        assert(ps.remove(at).drop_last() =~= ps.drop_last().remove(at));
    }
}

proof fn lemma_onset_remove(ps: Seq<Partial>, at: int)
    requires
        0 <= at < ps.len(),
    ensures
        lowest_onset(ps) == lower_onset(lowest_onset(ps.remove(at)), ps[at].onset()),
    decreases ps.len(),
{
    if at == ps.len() - 1 {
        assert(ps.remove(at) =~= ps.drop_last());
    } else {
        lemma_onset_remove(ps.drop_last(), at);
        assert(ps.remove(at).drop_last() =~= ps.drop_last().remove(at));
    }
}

proof fn lemma_reports_in_any_order(a: Seq<Partial>, b: Seq<Partial>)
    requires
        a.to_multiset() == b.to_multiset(),
    ensures
        tick_counts(a) == tick_counts(b),
        achieved(a) == achieved(b),
        lowest_onset(a) == lowest_onset(b),
        hist::summed_over(corrected_snapshots(a)) == hist::summed_over(corrected_snapshots(b)),
        hist::total_over(corrected_snapshots(a)) == hist::total_over(corrected_snapshots(b)),
        hist::any_share(corrected_snapshots(a)) == hist::any_share(corrected_snapshots(b)),
        hist::summed_over(uncorrected_snapshots(a)) == hist::summed_over(
            uncorrected_snapshots(b),
        ),
        hist::total_over(uncorrected_snapshots(a)) == hist::total_over(uncorrected_snapshots(b)),
        hist::any_share(uncorrected_snapshots(a)) == hist::any_share(uncorrected_snapshots(b)),
    decreases a.len(),
{
    broadcast use vstd::seq_lib::group_to_multiset_ensures;
    assert(a.len() == a.to_multiset().len() && b.len() == b.to_multiset().len());
    if a.len() > 0 {
        let p = a.last();
        assert(a.contains(p));
        assert(b.to_multiset().count(p) > 0);
        assert(b.contains(p));
        let at = choose|at: int| 0 <= at < b.len() && b[at] == p;
        let rest = b.remove(at);
        assert(a.remove(a.len() - 1) =~= a.drop_last());
        assert(a.drop_last().to_multiset() =~= rest.to_multiset());
        lemma_reports_in_any_order(a.drop_last(), rest);
        lemma_sum_remove(report_counts(b), at);
        assert(report_counts(b).remove(at) =~= report_counts(rest));
        assert(report_counts(a).drop_last() =~= report_counts(a.drop_last()));
        lemma_achieved_remove(b, at);
        lemma_onset_remove(b, at);
        hist::lemma_over_remove(corrected_snapshots(b), at);
        assert(corrected_snapshots(b).remove(at) =~= corrected_snapshots(rest));
        assert(corrected_snapshots(a).drop_last() =~= corrected_snapshots(a.drop_last()));
        hist::lemma_over_remove(uncorrected_snapshots(b), at);
        assert(uncorrected_snapshots(b).remove(at) =~= uncorrected_snapshots(rest));
        assert(uncorrected_snapshots(a).drop_last() =~= uncorrected_snapshots(a.drop_last()));
    } else {
        assert(a =~= b);
    }
}

/// The order in which workers report a tick does not matter: whether it can be
/// counted, and its counts, totals, rate, bucket and onset come out the same, and
/// so do its percentiles and merged snapshots, as long as the values of all
/// snapshots can be counted together. Malformed snapshots and ones with other
/// settings make no difference to that.
pub proof fn law_report_order_does_not_matter(
    a: Seq<Partial>,
    b: Seq<Partial>,
    tick_n: u64,
    cum: Cumulative,
    ta: AggregatedTick,
    tb: AggregatedTick,
)
    requires
        a.to_multiset() == b.to_multiset(),
        countable(a, cum) ==> aggregates(ta, tick_n, a, cum),
        countable(b, cum) ==> aggregates(tb, tick_n, b, cum),
    ensures
        countable(a, cum) == countable(b, cum),
        countable(a, cum) ==> {
            &&& ta.elapsed_s == tb.elapsed_s
            &&& ta.achieved_rps_1s == tb.achieved_rps_1s
            &&& ta.completed_total == tb.completed_total
            &&& ta.pass_total == tb.pass_total
            &&& ta.fail_status_total == tb.fail_status_total
            &&& ta.this_tick == tb.this_tick
            &&& ta.buckets@ == tb.buckets@
            &&& ta.rate_limit_onset_mrps == tb.rate_limit_onset_mrps
        },
        countable(a, cum) && hist::total_over(corrected_snapshots(a)) < u64::MAX ==> {
            &&& ta.percentiles_so_far == tb.percentiles_so_far
            &&& ta.merged_hist_v2@ == tb.merged_hist_v2@
        },
        countable(a, cum) && hist::total_over(uncorrected_snapshots(a)) < u64::MAX
            ==> ta.merged_uncorrected_hist_v2@ == tb.merged_uncorrected_hist_v2@,
{
    lemma_reports_in_any_order(a, b);
    if hist::total_over(corrected_snapshots(a)) < u64::MAX {
        hist::law_merging_loses_nothing(corrected_snapshots(a));
        hist::law_merging_loses_nothing(corrected_snapshots(b));
    }
    if hist::total_over(uncorrected_snapshots(a)) < u64::MAX {
        hist::law_merging_loses_nothing(uncorrected_snapshots(a));
        hist::law_merging_loses_nothing(uncorrected_snapshots(b));
    }
}

/// The sum of one count over the buckets of a report.
pub open spec fn over_buckets(bs: Seq<RpsBucket>, count: spec_fn(RpsBucket) -> u64) -> nat
    decreases bs.len(),
{
    if bs.len() == 0 {
        0
    } else {
        over_buckets(bs.drop_last(), count) + count(bs.last()) as nat
    }
}

/// The sum of one count over all buckets of all reports.
pub open spec fn over_reports(ps: Seq<Partial>, count: spec_fn(RpsBucket) -> u64) -> nat
    decreases ps.len(),
{
    if ps.len() == 0 {
        0
    } else {
        over_reports(ps.drop_last(), count) + over_buckets(ps.last().buckets@, count)
    }
}

/// What a report counts is what all its buckets count, verdict by verdict.
pub proof fn law_a_report_counts_all_its_buckets(p: Partial)
    ensures
        p.counts().total == over_buckets(p.buckets@, |b: RpsBucket| b.total),
        p.counts().pass == over_buckets(p.buckets@, |b: RpsBucket| b.pass),
        p.counts().fail_status == over_buckets(p.buckets@, |b: RpsBucket| b.fail_status),
        p.counts().fail_latency == over_buckets(p.buckets@, |b: RpsBucket| b.fail_latency),
        p.counts().fail_size == over_buckets(p.buckets@, |b: RpsBucket| b.fail_size),
        p.counts().fail_content_type == over_buckets(
            p.buckets@,
            |b: RpsBucket| b.fail_content_type,
        ),
        p.counts().rate_limited == over_buckets(p.buckets@, |b: RpsBucket| b.rate_limited),
{
    lemma_over_buckets(p.buckets@);
}

proof fn lemma_over_buckets(bs: Seq<RpsBucket>)
    ensures
        ({
            let sum = Counts::sum(Seq::new(bs.len(), |i: int| bs[i].counts()));
            &&& sum.total == over_buckets(bs, |b: RpsBucket| b.total)
            &&& sum.pass == over_buckets(bs, |b: RpsBucket| b.pass)
            &&& sum.fail_status == over_buckets(bs, |b: RpsBucket| b.fail_status)
            &&& sum.fail_latency == over_buckets(bs, |b: RpsBucket| b.fail_latency)
            &&& sum.fail_size == over_buckets(bs, |b: RpsBucket| b.fail_size)
            &&& sum.fail_content_type == over_buckets(bs, |b: RpsBucket| b.fail_content_type)
            &&& sum.rate_limited == over_buckets(bs, |b: RpsBucket| b.rate_limited)
        }),
    decreases bs.len(),
{
    if bs.len() > 0 {
        let rest = bs.drop_last();
        lemma_over_buckets(rest);
        assert(Seq::new(bs.len(), |i: int| bs[i].counts()).drop_last() =~= Seq::new(
            rest.len(),
            |i: int| rest[i].counts(),
        ));
    }
}

/// Reports add up bucket by bucket: each count of several reports together is the sum
/// over all buckets of all of them.
pub proof fn law_reports_add_up(ps: Seq<Partial>)
    ensures
        tick_counts(ps).total == over_reports(ps, |b: RpsBucket| b.total),
        tick_counts(ps).pass == over_reports(ps, |b: RpsBucket| b.pass),
        tick_counts(ps).fail_status == over_reports(ps, |b: RpsBucket| b.fail_status),
        tick_counts(ps).fail_latency == over_reports(ps, |b: RpsBucket| b.fail_latency),
        tick_counts(ps).fail_size == over_reports(ps, |b: RpsBucket| b.fail_size),
        tick_counts(ps).fail_content_type == over_reports(ps, |b: RpsBucket| b.fail_content_type),
        tick_counts(ps).rate_limited == over_reports(ps, |b: RpsBucket| b.rate_limited),
    decreases ps.len(),
{
    if ps.len() > 0 {
        law_reports_add_up(ps.drop_last());
        law_a_report_counts_all_its_buckets(ps.last());
        assert(report_counts(ps).drop_last() =~= report_counts(ps.drop_last()));
    } else {
        assert(report_counts(ps).len() == 0);
    }
}

/// The first report of a rate limit that `p` carries.
pub open spec fn tells_onset(p: Partial, mrps: u64) -> bool {
    p.rate_limit matches Some(rl) && rl.first_429_mrps == Some(mrps)
}

/// The onset of several reports is the lowest that any of them tells; there is none
/// only where none of them tells one.
pub proof fn law_the_lowest_onset_is_kept(ps: Seq<Partial>)
    ensures
        lowest_onset(ps) matches Some(x) ==> {
            &&& exists|i: int| 0 <= i < ps.len() && tells_onset(#[trigger] ps[i], x)
            &&& forall|i: int, y: u64|
                0 <= i < ps.len() && #[trigger] tells_onset(ps[i], y) ==> x <= y
        },
        lowest_onset(ps) is None ==> forall|i: int, y: u64|
            0 <= i < ps.len() ==> !#[trigger] tells_onset(ps[i], y),
    decreases ps.len(),
{
    if ps.len() > 0 {
        let rest = ps.drop_last();
        let n = ps.len() - 1;
        law_the_lowest_onset_is_kept(rest);
        if let Some(x) = lowest_onset(ps) {
            if tells_onset(ps[n], x) {
            } else {
                let i = choose|i: int| 0 <= i < rest.len() && tells_onset(#[trigger] rest[i], x);
                assert(tells_onset(ps[i], x));
            }
        }
        assert forall|i: int, y: u64|
            0 <= i < ps.len() && #[trigger] tells_onset(ps[i], y) implies lowest_onset(ps) is Some
            && lowest_onset(ps)->0 <= y by {
            if i < n {
                assert(tells_onset(rest[i], y));
            }
        }
    }
}

/// The sum of the rates that the reports achieved.
pub open spec fn rates_of(ps: Seq<Partial>) -> nat
    decreases ps.len(),
{
    if ps.len() == 0 {
        0
    } else {
        rates_of(ps.drop_last()) + ps.last().achieved_rps as nat
    }
}

proof fn lemma_rates_of(ps: Seq<Partial>)
    ensures
        achieved(ps) == rates_of(ps),
    decreases ps.len(),
{
    if ps.len() > 0 {
        lemma_rates_of(ps.drop_last());
    }
}

/// A fleet's tick adds up its workers': each count of the second is the sum over all
/// their buckets, the totals grow by it, the rate is the sum of their rates, and the
/// onset the lowest of theirs.
pub proof fn law_a_fleet_tick_adds_up_its_workers(
    t: AggregatedTick,
    tick_n: u64,
    ps: Seq<Partial>,
    cum: Cumulative,
)
    requires
        aggregates(t, tick_n, ps, cum),
    ensures
        t.elapsed_s == tick_n,
        t.this_tick.total == over_reports(ps, |b: RpsBucket| b.total),
        t.this_tick.pass == over_reports(ps, |b: RpsBucket| b.pass),
        t.this_tick.fail_status == over_reports(ps, |b: RpsBucket| b.fail_status),
        t.this_tick.fail_latency == over_reports(ps, |b: RpsBucket| b.fail_latency),
        t.this_tick.fail_size == over_reports(ps, |b: RpsBucket| b.fail_size),
        t.this_tick.fail_content_type == over_reports(ps, |b: RpsBucket| b.fail_content_type),
        t.this_tick.rate_limited == over_reports(ps, |b: RpsBucket| b.rate_limited),
        t.completed_total == cum.completed + t.this_tick.total,
        t.pass_total == cum.pass + t.this_tick.pass,
        t.fail_status_total == cum.fail_status + t.this_tick.fail_status,
        rates_of(ps) <= u64::MAX ==> t.achieved_rps_1s == rates_of(ps),
        rates_of(ps) > u64::MAX ==> t.achieved_rps_1s == u64::MAX,
        t.rate_limit_onset_mrps matches Some(x) ==> {
            &&& exists|i: int| 0 <= i < ps.len() && tells_onset(#[trigger] ps[i], x)
            &&& forall|i: int, y: u64|
                0 <= i < ps.len() && #[trigger] tells_onset(ps[i], y) ==> x <= y
        },
        t.rate_limit_onset_mrps is None ==> forall|i: int, y: u64|
            0 <= i < ps.len() ==> !#[trigger] tells_onset(ps[i], y),
{
    law_reports_add_up(ps);
    law_the_lowest_onset_is_kept(ps);
    lemma_rates_of(ps);
}

/// A fleet's second goes into the bucket of the fleet's rate, with the fleet's
/// counts.
pub proof fn law_a_fleet_second_falls_into_one_bucket(
    t: AggregatedTick,
    tick_n: u64,
    ps: Seq<Partial>,
    cum: Cumulative,
)
    requires
        aggregates(t, tick_n, ps, cum),
        t.achieved_rps_1s <= u64::MAX - 10,
    ensures
        t.buckets@.len() == 1,
        ({
            let b = t.buckets@[0];
            &&& b.rps_lo % 10 == 0
            &&& b.rps_hi == b.rps_lo + 10
            &&& b.rps_lo <= t.achieved_rps_1s < b.rps_hi
            &&& b.total == t.this_tick.total
            &&& b.pass == t.this_tick.pass
            &&& b.fail_status == t.this_tick.fail_status
            &&& b.fail_latency == t.this_tick.fail_latency
            &&& b.fail_size == t.this_tick.fail_size
            &&& b.fail_content_type == t.this_tick.fail_content_type
            &&& b.rate_limited == t.this_tick.rate_limited
        }),
{
    run::law_buckets_are_ten_wide(t.achieved_rps_1s);
    assert(t.buckets@[0].rps_lo == run::bucket_lo(t.achieved_rps_1s));
}

/// The `i`-th snapshot reads as a latency histogram of `values[i]`.
pub open spec fn snapshots_of(snapshots: Seq<Seq<u8>>, values: Seq<Seq<u64>>) -> bool {
    &&& snapshots.len() == values.len()
    &&& forall|i: int|
        0 <= i < snapshots.len() ==> match hist::v2_read(#[trigger] snapshots[i]) {
            Some((layout, counts)) => layout == (1u64, 60_000_000u64, 3u8) && hist::holds(
                counts,
                values[i],
            ),
            None => values[i].len() == 0,
        }
}

/// A fleet's tick shows every worker's latencies, each kind with its own: its merged
/// corrected snapshot reads back as a histogram of all corrected latencies that the
/// workers' snapshots hold, its percentiles are those of such a histogram, and its
/// merged uncorrected snapshot reads back as one of all uncorrected latencies. A
/// worker without a readable snapshot takes nothing away.
pub proof fn law_a_fleet_tick_shows_every_latency(
    t: AggregatedTick,
    tick_n: u64,
    ps: Seq<Partial>,
    cum: Cumulative,
    corrected: Seq<Seq<u64>>,
    uncorrected: Seq<Seq<u64>>,
    of_all: Seq<u64>,
)
    requires
        aggregates(t, tick_n, ps, cum),
        snapshots_of(Seq::new(ps.len(), |i: int| ps[i].corrected_hist@), corrected),
        snapshots_of(Seq::new(ps.len(), |i: int| ps[i].uncorrected_hist@), uncorrected),
        hist::total_over(Seq::new(ps.len(), |i: int| ps[i].corrected_hist@)) < i64::MAX,
        hist::total_over(Seq::new(ps.len(), |i: int| ps[i].uncorrected_hist@)) < i64::MAX,
        exists|i: int|
            0 <= i < ps.len() && hist::v2_read((#[trigger] ps[i]).corrected_hist@) is Some,
        exists|i: int|
            0 <= i < ps.len() && hist::v2_read((#[trigger] ps[i]).uncorrected_hist@) is Some,
        hist::holds(of_all, hist::in_a_row(corrected)),
    ensures
        hist::v2_read(t.merged_hist_v2@) matches Some((layout, counts)) && layout == (
            1u64,
            60_000_000u64,
            3u8,
        ) && hist::holds(counts, hist::in_a_row(corrected)),
        hist::v2_read(t.merged_uncorrected_hist_v2@) matches Some((layout, counts)) && layout == (
            1u64,
            60_000_000u64,
            3u8,
        ) && hist::holds(counts, hist::in_a_row(uncorrected)),
        t.percentiles_so_far.p50_us == hist::hist_quantile((1u64, 60_000_000u64, 3u8), of_all, 500),
        t.percentiles_so_far.p95_us == hist::hist_quantile((1u64, 60_000_000u64, 3u8), of_all, 950),
        t.percentiles_so_far.p99_us == hist::hist_quantile((1u64, 60_000_000u64, 3u8), of_all, 990),
{
    let cs = corrected_snapshots(ps);
    let us = uncorrected_snapshots(ps);
    assert(cs =~= Seq::new(ps.len(), |i: int| ps[i].corrected_hist@));
    assert(us =~= Seq::new(ps.len(), |i: int| ps[i].uncorrected_hist@));
    hist::law_merged_snapshots_hold_every_value(cs, corrected);
    hist::law_merged_snapshots_hold_every_value(us, uncorrected);
    hist::law_merging_loses_nothing(cs);
    hist::law_merging_loses_nothing(us);
    let i = choose|i: int|
        0 <= i < ps.len() && hist::v2_read((#[trigger] ps[i]).corrected_hist@) is Some;
    assert(hist::v2_read(cs[i]) is Some);
    lemma_any_share(cs, corrected, i);
    let j = choose|j: int|
        0 <= j < ps.len() && hist::v2_read((#[trigger] ps[j]).uncorrected_hist@) is Some;
    assert(hist::v2_read(us[j]) is Some);
    lemma_any_share(us, uncorrected, j);
    hist::lemma_total_is_encodable(hist::merged_over(cs).0);
    hist::lemma_total_is_encodable(hist::merged_over(us).0);
    hist::law_values_settle_the_counts(
        of_all,
        hist::merged_over(cs).0,
        hist::in_a_row(corrected),
    );
}

proof fn lemma_any_share(snapshots: Seq<Seq<u8>>, values: Seq<Seq<u64>>, i: int)
    requires
        snapshots_of(snapshots, values),
        0 <= i < snapshots.len(),
        hist::v2_read(snapshots[i]) is Some,
    ensures
        hist::any_share(snapshots),
    decreases snapshots.len(),
{
    if i < snapshots.len() - 1 {
        let rest = snapshots.drop_last();
        assert forall|k: int| 0 <= k < rest.len() implies match hist::v2_read(#[trigger] rest[k]) {
            Some((layout, counts)) => layout == (1u64, 60_000_000u64, 3u8) && hist::holds(
                counts,
                values.drop_last()[k],
            ),
            None => values.drop_last()[k].len() == 0,
        } by {
            assert(rest[k] == snapshots[k]);
        }
        lemma_any_share(rest, values.drop_last(), i);
    } else {
        assert(snapshots[i] == snapshots.last());
    }
}

/// Reports of one tick are filed one for each worker: the report just filed stands
/// under its worker's id, in place of an earlier one of the same worker, and every
/// other worker's report stays as it was.
pub proof fn law_a_worker_has_one_report_per_tick(reports: Reports, id: Seq<char>, p: Partial)
    requires
        reports.worker_ids.len() == reports.partials.len(),
        distinct(reports.worker_ids),
    ensures
        ({
            let after = reports.filed(id, p);
            &&& after.worker_ids.len() == after.partials.len()
            &&& distinct(after.worker_ids)
            &&& after.worker_ids.contains(id)
            &&& forall|i: int|
                0 <= i < after.worker_ids.len() && #[trigger] after.worker_ids[i] == id
                    ==> after.partials[i] == p
            &&& forall|i: int|
                0 <= i < reports.worker_ids.len() && #[trigger] reports.worker_ids[i] != id ==> {
                    &&& after.worker_ids[i] == reports.worker_ids[i]
                    &&& after.partials[i] == reports.partials[i]
                }
            &&& reports.worker_ids.contains(id) ==> after.worker_ids.len()
                == reports.worker_ids.len()
            &&& !reports.worker_ids.contains(id) ==> after.worker_ids.len()
                == reports.worker_ids.len() + 1
        }),
{
    let ids = reports.worker_ids;
    let after = reports.filed(id, p);
    if ids.contains(id) {
        let at = choose|at: int| 0 <= at < ids.len() && ids[at] == id;
        assert forall|k: int| 0 <= k < at implies #[trigger] ids[k] != id by {
            assert(ids[k] != ids[at]);
        }
        lemma_report_at_is(ids, id, at);
        assert(after.worker_ids[at] == id);
        assert forall|i: int|
            0 <= i < after.worker_ids.len() && #[trigger] after.worker_ids[i] == id implies i
            == at by {
            if i < at {
                assert(ids[i] != ids[at]);
            } else if at < i {
                assert(ids[at] != ids[i]);
            }
        }
    } else {
        assert forall|k: int| 0 <= k < ids.len() implies #[trigger] ids[k] != id by {
            if ids[k] == id {
                assert(ids.contains(id));
            }
        }
        lemma_report_at_is(ids, id, ids.len() as int);
        assert(after.worker_ids[ids.len() as int] == id);
        assert forall|i: int, j: int|
            0 <= i < j < after.worker_ids.len() implies #[trigger] after.worker_ids[i]
            != #[trigger] after.worker_ids[j] by {
            if j < ids.len() {
                assert(ids[i] != ids[j]);
            } else {
                assert(ids[i] != id);
            }
        }
    }
}

/// A tick goes out once every worker of the fleet has reported it, and not before. A
/// report that is not the last one of its tick is kept and nothing is counted; the
/// last one makes the sum of all go out under the tick's own number, and the tick is
/// pending no more; other ticks are left alone. A closing report changes nothing.
pub proof fn law_a_tick_goes_out_when_all_have_reported(
    fleet: nat,
    before: Map<u64, Reports>,
    counted: Cumulative,
    id: Seq<char>,
    p: Partial,
    r: Result<Option<AggregatedTick>, CountOverflow>,
    after: Map<u64, Reports>,
    counted_after: Cumulative,
    other: u64,
)
    requires
        takes_in(fleet, before, counted, id, p, r, after, counted_after),
        other != p.tick,
        before.dom().contains(p.tick) ==> {
            let have = before[p.tick];
            &&& have.worker_ids.len() == have.partials.len()
            &&& distinct(have.worker_ids)
            &&& have.worker_ids.len() < fleet
        },
    ensures
        ({
            let have: Seq<Seq<char>> = if before.dom().contains(p.tick) {
                before[p.tick].worker_ids
            } else {
                Seq::empty()
            };
            let now = if have.contains(id) {
                have.len()
            } else {
                have.len() + 1
            };
            &&& !p.is_final && now == fleet ==> {
                &&& !(r matches Ok(None))
                &&& !after.dom().contains(p.tick)
                &&& r matches Ok(Some(t)) ==> t.elapsed_s == p.tick
            }
            &&& !p.is_final && now != fleet ==> {
                &&& r matches Ok(None)
                &&& counted_after == counted
                &&& after.dom().contains(p.tick)
                &&& after[p.tick].worker_ids.len() == now
                &&& after[p.tick].worker_ids.contains(id)
            }
            &&& p.is_final ==> (r matches Ok(None)) && after == before && counted_after == counted
            &&& r is Err ==> counted_after == counted
            &&& after.dom().contains(other) == before.dom().contains(other)
            &&& before.dom().contains(other) ==> after[other] == before[other]
        }),
{
    let have = gathered(before, p.tick);
    law_a_worker_has_one_report_per_tick(have, id, p);
}

/// What has gone out is the sum of all ticks that went out: a tick that goes out adds
/// what its workers' buckets count, and no more.
pub proof fn law_the_fleet_total_grows_by_each_tick(
    fleet: nat,
    before: Map<u64, Reports>,
    counted: Cumulative,
    id: Seq<char>,
    p: Partial,
    t: AggregatedTick,
    after: Map<u64, Reports>,
    counted_after: Cumulative,
)
    requires
        takes_in(fleet, before, counted, id, p, Ok(Some(t)), after, counted_after),
    ensures
        counted_after.completed == counted.completed + t.this_tick.total,
        counted_after.pass == counted.pass + t.this_tick.pass,
        counted_after.fail_status == counted.fail_status + t.this_tick.fail_status,
        t.completed_total == counted_after.completed,
        t.pass_total == counted_after.pass,
        t.fail_status_total == counted_after.fail_status,
{
}

/// A worker's summary holds what all its reports counted, bucket by bucket, and the
/// lowest onset that any of them told.
pub proof fn law_a_worker_is_summed_up_bucket_by_bucket(
    states: Seq<WorkerSummary>,
    ps: Seq<Partial>,
)
    requires
        states.len() == ps.len() + 1,
        !states.first().finished,
        states.first().tally@ == Counts::zero(),
        states.first().first_429_mrps is None,
        forall|i: int|
            0 <= i < ps.len() ==> counted_in(states[i], #[trigger] ps[i], states[i + 1]),
    ensures
        ({
            let s = states.last();
            &&& s.tally.total == over_reports(ps, |b: RpsBucket| b.total)
            &&& s.tally.pass == over_reports(ps, |b: RpsBucket| b.pass)
            &&& s.tally.fail_status == over_reports(ps, |b: RpsBucket| b.fail_status)
            &&& s.tally.fail_latency == over_reports(ps, |b: RpsBucket| b.fail_latency)
            &&& s.tally.fail_size == over_reports(ps, |b: RpsBucket| b.fail_size)
            &&& s.tally.fail_content_type == over_reports(ps, |b: RpsBucket| b.fail_content_type)
            &&& s.tally.rate_limited == over_reports(ps, |b: RpsBucket| b.rate_limited)
            &&& s.first_429_mrps matches Some(x) ==> forall|i: int, y: u64|
                0 <= i < ps.len() && #[trigger] tells_onset(ps[i], y) ==> x <= y
            &&& s.first_429_mrps is None ==> forall|i: int, y: u64|
                0 <= i < ps.len() ==> !#[trigger] tells_onset(ps[i], y)
        }),
{
    law_worker_total_is_the_sum_of_its_reports(states, ps);
    law_reports_add_up(ps);
    law_the_lowest_onset_is_kept(ps);
    let s = states.last();
    assert(s.tally@.total == s.tally.total && s.tally@.pass == s.tally.pass);
    assert(s.tally@.fail_status == s.tally.fail_status);
    assert(s.tally@.fail_latency == s.tally.fail_latency);
    assert(s.tally@.fail_size == s.tally.fail_size);
    assert(s.tally@.fail_content_type == s.tally.fail_content_type);
    assert(s.tally@.rate_limited == s.tally.rate_limited);
}

/// The sum of one count over the workers that reported anything.
pub open spec fn over_workers(
    results: Seq<Option<WorkerSummary>>,
    count: spec_fn(WorkerSummary) -> u64,
) -> nat
    decreases results.len(),
{
    if results.len() == 0 {
        0
    } else {
        over_workers(results.drop_last(), count) + match results.last() {
            Some(s) => count(s) as nat,
            None => 0,
        }
    }
}

proof fn lemma_over_workers(results: Seq<Option<WorkerSummary>>)
    ensures
        fleet_counts(results).total == over_workers(results, |s: WorkerSummary| s.tally.total),
        fleet_counts(results).pass == over_workers(results, |s: WorkerSummary| s.tally.pass),
        fleet_counts(results).fail_status == over_workers(
            results,
            |s: WorkerSummary| s.tally.fail_status,
        ),
        fleet_counts(results).fail_latency == over_workers(
            results,
            |s: WorkerSummary| s.tally.fail_latency,
        ),
        fleet_counts(results).fail_size == over_workers(
            results,
            |s: WorkerSummary| s.tally.fail_size,
        ),
        fleet_counts(results).fail_content_type == over_workers(
            results,
            |s: WorkerSummary| s.tally.fail_content_type,
        ),
        fleet_counts(results).rate_limited == over_workers(
            results,
            |s: WorkerSummary| s.tally.rate_limited,
        ),
        finished_count(results) == over_workers(
            results,
            |s: WorkerSummary|
                if s.finished {
                    1u64
                } else {
                    0
                },
        ),
    decreases results.len(),
{
    if results.len() > 0 {
        let rest = results.drop_last();
        lemma_over_workers(rest);
        assert(Seq::new(results.len(), |i: int| worker_counts(results[i])).drop_last()
            =~= Seq::new(rest.len(), |i: int| worker_counts(rest[i])));
    }
}

/// A dispatch is summed up worker by worker: each total is the sum over the workers
/// that reported anything; a worker has finished if its stream was closed, and every
/// other one is lost; and there is one warning, which names both numbers, if and only
/// if some worker was lost.
pub proof fn law_a_dispatch_is_summed_up_worker_by_worker(
    s: DispatchSummary,
    results: Seq<Option<WorkerSummary>>,
    aborted: bool,
)
    requires
        s.summarises(results, aborted),
    ensures
        s.total_completed == over_workers(results, |w: WorkerSummary| w.tally.total),
        s.total_pass == over_workers(results, |w: WorkerSummary| w.tally.pass),
        s.total_fail_status == over_workers(results, |w: WorkerSummary| w.tally.fail_status),
        s.total_fail_latency == over_workers(results, |w: WorkerSummary| w.tally.fail_latency),
        s.total_fail_size == over_workers(results, |w: WorkerSummary| w.tally.fail_size),
        s.total_fail_content_type == over_workers(
            results,
            |w: WorkerSummary| w.tally.fail_content_type,
        ),
        s.total_rate_limited == over_workers(results, |w: WorkerSummary| w.tally.rate_limited),
        s.workers_dispatched == results.len(),
        s.workers_finished == over_workers(
            results,
            |w: WorkerSummary|
                if w.finished {
                    1u64
                } else {
                    0
                },
        ),
        s.workers_finished + s.workers_lost == s.workers_dispatched,
        s.aborted == aborted,
        s.warnings@.len() <= 1,
        s.warnings@.len() == 1 <==> exists|i: int|
            0 <= i < results.len() && !((#[trigger] results[i]) matches Some(w) && w.finished),
        s.warnings@.len() == 1 ==> {
            &&& s.warnings@[0].code@ == "WORKER_LOST"@
            &&& s.warnings@[0].message@ == "worker lost mid-run: ran "@ + text::decimal(
                s.workers_finished as nat,
            ) + " of "@ + text::decimal(s.workers_dispatched as nat) + " workers"@
        },
{
    lemma_over_workers(results);
    lemma_some_lost(results);
}

proof fn lemma_some_lost(results: Seq<Option<WorkerSummary>>)
    ensures
        finished_count(results) <= results.len(),
        finished_count(results) < results.len() <==> exists|i: int|
            0 <= i < results.len() && !((#[trigger] results[i]) matches Some(w) && w.finished),
    decreases results.len(),
{
    if results.len() > 0 {
        let rest = results.drop_last();
        let n = results.len() - 1;
        lemma_some_lost(rest);
        if finished_count(results) < results.len() {
            if finished_count(rest) < rest.len() {
                let i = choose|i: int|
                    0 <= i < rest.len() && !((#[trigger] rest[i]) matches Some(w) && w.finished);
                assert(!(results[i] matches Some(w) && w.finished));
            } else {
                assert(!(results[n] matches Some(w) && w.finished));
            }
        }
        if exists|i: int|
            0 <= i < results.len() && !((#[trigger] results[i]) matches Some(w) && w.finished) {
            let i = choose|i: int|
                0 <= i < results.len() && !((#[trigger] results[i]) matches Some(w) && w.finished);
            if i < n {
                assert(!(rest[i] matches Some(w) && w.finished));
            }
        }
    }
}

/// The onset of a dispatch is the lowest of any worker.
pub proof fn law_the_fleet_onset_is_the_lowest(
    s: DispatchSummary,
    results: Seq<Option<WorkerSummary>>,
    aborted: bool,
    i: int,
)
    requires
        s.summarises(results, aborted),
        0 <= i < results.len(),
    ensures
        results[i] matches Some(w) ==> (w.first_429_mrps matches Some(y) ==> (
        s.first_429_mrps matches Some(x) && x <= y)),
        s.first_429_mrps matches Some(x) ==> exists|k: int|
            0 <= k < results.len() && (#[trigger] results[k]) is Some
                && results[k]->Some_0.first_429_mrps == Some(x),
{
    lemma_fleet_onset(results);
}

proof fn lemma_fleet_onset(results: Seq<Option<WorkerSummary>>)
    ensures
        forall|i: int|
            0 <= i < results.len() ==> ((#[trigger] results[i]) matches Some(w) ==> (
            w.first_429_mrps matches Some(y) ==> fleet_onset(results) is Some && fleet_onset(
                results,
            )->0 <= y)),
        fleet_onset(results) matches Some(x) ==> exists|k: int|
            0 <= k < results.len() && (#[trigger] results[k]) is Some
                && results[k]->Some_0.first_429_mrps == Some(x),
    decreases results.len(),
{
    if results.len() > 0 {
        let rest = results.drop_last();
        let n = results.len() - 1;
        lemma_fleet_onset(rest);
        assert forall|i: int| 0 <= i < results.len() implies ((
        #[trigger] results[i]) matches Some(w) ==> (w.first_429_mrps matches Some(y) ==> fleet_onset(
            results,
        ) is Some && fleet_onset(results)->0 <= y)) by {
            if i < n {
                assert(rest[i] == results[i]);
            }
        }
        if let Some(x) = fleet_onset(results) {
            if results[n] is Some && results[n]->Some_0.first_429_mrps == Some(x) {
            } else {
                let k = choose|k: int|
                    0 <= k < rest.len() && (#[trigger] rest[k]) is Some
                        && rest[k]->Some_0.first_429_mrps == Some(x);
                assert(results[k] is Some && results[k]->Some_0.first_429_mrps == Some(x));
            }
        }
    }
}

/// Every registered worker gets one slice, sent to its own address under its own id,
/// with an equal share of the rate: the target's requests over a period as many times
/// as long as there are workers. All of them start at the same moment, the one that
/// the run asks for, or now where it asks for none.
pub proof fn law_every_worker_gets_an_equal_slice(
    slices: Seq<Slice>,
    spec: DispatchSpec,
    workers: Seq<coordinator::WorkerRecord>,
    now_unix_us: i64,
    i: int,
)
    requires
        divides(slices, spec, workers, spec.epoch(now_unix_us)),
        spec.rate_fits(workers.len()),
        0 <= i < workers.len(),
    ensures
        slices.len() == workers.len(),
        slices[i].worker_id@ == workers[i].worker_id,
        slices[i].assignment.worker_id@ == workers[i].worker_id,
        slices[i].assignment.run_id@ == spec.run_id@,
        slices[i].assignment.throughput.requests == spec.target_rps.requests,
        slices[i].assignment.throughput.per_us == spec.target_rps.per_us * workers.len(),
        slices[i].assignment.catch_up.requests == 2 * spec.target_rps.requests,
        slices[i].assignment.catch_up.per_us == spec.target_rps.per_us * workers.len(),
        spec.epoch_unix_us != 0 ==> slices[i].assignment.epoch_unix_us == spec.epoch_unix_us,
        spec.epoch_unix_us == 0 ==> slices[i].assignment.epoch_unix_us == now_unix_us,
        slices[i].url@ == workers[i].address || slices[i].url@ == "http://"@ + workers[i].address,
        slices[i].assignment.target matches Some(t) && t.url@ == spec.target_url@,
        slices[i].assignment.contract_version@ == "1.0.0"@,
        slices[i].assignment.load_model == 0,
        slices[i].assignment.warmup_s == 0,
        slices[i].assignment.rate_limit_policy matches Some(p) && p.action == 1
            && p.max_backoff_ms == 5000 && p.record_onset,
        slices[i].assignment.assertions matches Some(s) && s.sample_every_n == 0 && !s.ship_bodies,
{
    assert(0 <= spec.target_rps.per_us * workers.len()) by (nonlinear_arith)
        requires
            spec.target_rps.per_us >= 0,
            workers.len() >= 0,
    ;
    assert(slices[i].worker_id@ == workers[i].worker_id);
}

/// A dispatched run is in flight under its id, not aborted, with the address of every
/// worker that takes part; an abort in the meantime shows when the dispatch is closed,
/// and an abort of another run does not.
pub proof fn law_a_dispatched_run_can_be_aborted(
    runs: Seq<coordinator::RunRecord>,
    run_id: Seq<char>,
    workers: Seq<coordinator::WorkerRecord>,
    other: Seq<char>,
)
    requires
        coordinator::distinct_runs(runs),
        other != run_id,
    ensures
        ({
            let after = noted(runs, run_id, workers);
            let at = coordinator::run_at(after, run_id);
            &&& coordinator::is_flying(after, run_id)
            &&& !coordinator::is_cancelled(after, run_id)
            &&& after[at].worker_addrs.len() == workers.len()
            &&& forall|i: int|
                0 <= i < workers.len() ==> #[trigger] after[at].worker_addrs[i]
                    == workers[i].address
            &&& coordinator::is_cancelled(coordinator::aborted_in(after, run_id), run_id)
            &&& !coordinator::is_cancelled(coordinator::aborted_in(after, other), run_id)
        }),
{
    coordinator::lemma_noted(
        runs,
        coordinator::RunRecord { run_id, worker_addrs: addresses(workers), cancelled: false },
        other,
    );
}

/// A run is dispatched if there is a worker to dispatch it to: then it is in flight;
/// otherwise it is refused, and what is in flight stays as it was.
pub proof fn law_a_run_needs_a_worker(
    workers: Seq<coordinator::WorkerRecord>,
    runs: Seq<coordinator::RunRecord>,
    spec: DispatchSpec,
    now_unix_us: i64,
    r: Result<Vec<Slice>, DispatchError>,
    after: Seq<coordinator::RunRecord>,
    other: Seq<char>,
)
    requires
        planned(workers, runs, spec, now_unix_us, r, after),
        coordinator::distinct_runs(runs),
        other != spec.run_id@,
    ensures
        workers.len() == 0 ==> r is Err && after == runs,
        workers.len() > 0 ==> {
            &&& r matches Ok(slices) && slices@.len() == workers.len()
            &&& coordinator::is_flying(after, spec.run_id@)
            &&& !coordinator::is_cancelled(after, spec.run_id@)
        },
{
    if workers.len() > 0 {
        law_a_dispatched_run_can_be_aborted(runs, spec.run_id@, workers, other);
    }
}

/// A run that was summed up is in flight no more, and every other run still is. It is
/// summed up if its totals fit, and told as aborted if and only if it was aborted while
/// in flight.
pub proof fn law_a_run_is_wound_up_once(
    runs: Seq<coordinator::RunRecord>,
    run_id: Seq<char>,
    results: Seq<Option<WorkerSummary>>,
    r: Option<DispatchSummary>,
    after: Seq<coordinator::RunRecord>,
    other: coordinator::RunRecord,
    i: int,
)
    requires
        wound_up(runs, run_id, results, r, after),
        coordinator::distinct_runs(runs),
    ensures
        !coordinator::is_flying(after, run_id),
        after.contains(other) <==> runs.contains(other) && other.run_id != run_id,
        r is Some <==> {
            &&& over_workers(results, |w: WorkerSummary| w.tally.total) <= u64::MAX
            &&& over_workers(results, |w: WorkerSummary| w.tally.pass) <= u64::MAX
            &&& over_workers(results, |w: WorkerSummary| w.tally.fail_status) <= u64::MAX
            &&& over_workers(results, |w: WorkerSummary| w.tally.fail_latency) <= u64::MAX
            &&& over_workers(results, |w: WorkerSummary| w.tally.fail_size) <= u64::MAX
            &&& over_workers(results, |w: WorkerSummary| w.tally.fail_content_type) <= u64::MAX
            &&& over_workers(results, |w: WorkerSummary| w.tally.rate_limited) <= u64::MAX
        },
        r matches Some(s) ==> (0 <= i < runs.len() && runs[i].run_id == run_id ==> s.aborted
            == runs[i].cancelled),
        r matches Some(s) ==> ((forall|k: int|
            0 <= k < runs.len() ==> (#[trigger] runs[k]).run_id != run_id) ==> !s.aborted),
{
    coordinator::law_a_finished_run_is_forgotten(runs, run_id, other);
    coordinator::law_workers_and_runs_go_by_their_ids(Seq::empty(), runs, run_id);
    if 0 <= i < runs.len() && runs[i].run_id == run_id {
        coordinator::lemma_run_found(runs, run_id, i);
    }
    lemma_over_workers(results);
}

/// A tick can be counted if all its sums fit, those of the second and those of the
/// whole run, and not otherwise.
pub proof fn law_a_tick_is_counted_if_its_sums_fit(ps: Seq<Partial>, cum: Cumulative)
    ensures
        countable(ps, cum) <==> {
            &&& cum.completed + over_reports(ps, |b: RpsBucket| b.total) <= u64::MAX
            &&& cum.pass + over_reports(ps, |b: RpsBucket| b.pass) <= u64::MAX
            &&& cum.fail_status + over_reports(ps, |b: RpsBucket| b.fail_status) <= u64::MAX
            &&& over_reports(ps, |b: RpsBucket| b.fail_latency) <= u64::MAX
            &&& over_reports(ps, |b: RpsBucket| b.fail_size) <= u64::MAX
            &&& over_reports(ps, |b: RpsBucket| b.fail_content_type) <= u64::MAX
            &&& over_reports(ps, |b: RpsBucket| b.rate_limited) <= u64::MAX
        },
{
    law_reports_add_up(ps);
}

/// A tick whose reports carry no snapshot that can be read shows no percentiles and
/// carries no snapshot itself; nothing is made up for it.
pub proof fn law_a_tick_without_snapshots_shows_no_latency(
    t: AggregatedTick,
    tick_n: u64,
    ps: Seq<Partial>,
    cum: Cumulative,
)
    requires
        aggregates(t, tick_n, ps, cum),
        forall|i: int|
            0 <= i < ps.len() ==> hist::v2_read((#[trigger] ps[i]).corrected_hist@) is None,
        forall|i: int|
            0 <= i < ps.len() ==> hist::v2_read((#[trigger] ps[i]).uncorrected_hist@) is None,
    ensures
        t.percentiles_so_far.p50_us == 0,
        t.percentiles_so_far.p95_us == 0,
        t.percentiles_so_far.p99_us == 0,
        t.merged_hist_v2@.len() == 0,
        t.merged_uncorrected_hist_v2@.len() == 0,
{
    let cs = corrected_snapshots(ps);
    let us = uncorrected_snapshots(ps);
    assert forall|i: int| 0 <= i < cs.len() implies hist::v2_read(#[trigger] cs[i]) is None by {
        assert(hist::v2_read(ps[i].corrected_hist@) is None);
    }
    assert forall|i: int| 0 <= i < us.len() implies hist::v2_read(#[trigger] us[i]) is None by {
        assert(hist::v2_read(ps[i].uncorrected_hist@) is None);
    }
    hist::lemma_nothing_merged(cs);
    hist::lemma_nothing_merged(us);
}

} // verus!

//! What a run tells the outside: one tick per second while it goes on, and a
//! report at its end.

use vstd::prelude::*;

use crate::connection::{
    self, ConnAction, ConnResult, Connection, Health, LiveRun, RunRules, SampledResponse,
};
use crate::hist::{self, Histos, Summary};
use crate::rate::Rate;
use crate::response;
use crate::tally::{self, Counts, Tally};
use crate::worker::RunSpec;

verus! {

/// Width of a bucket on the load axis, in requests per second.
pub const BUCKET_WIDTH_RPS: u64 = 10;

/// The counts of one tick alone.
#[derive(Debug, Clone, Copy, PartialEq, Eq, Structural)]
pub struct ThisTick {
    pub total: u64,
    pub pass: u64,
    pub fail_status: u64,
    pub fail_latency: u64,
    pub fail_size: u64,
    pub fail_content_type: u64,
    /// Outside the correctness denominator.
    pub rate_limited: u64,
}

/// Corrected percentiles of the run so far.
#[derive(Debug, Clone, Copy, PartialEq, Eq, Structural)]
pub struct PercentilesSoFar {
    pub p50_us: u64,
    pub p99_us: u64,
}

impl Default for PercentilesSoFar {
    fn default() -> (p: Self)
        ensures
            p == (PercentilesSoFar { p50_us: 0, p99_us: 0 }),
    {
        PercentilesSoFar { p50_us: 0, p99_us: 0 }
    }
}

/// The counts that fall into one bucket of the load axis.
#[derive(Debug, Clone, Copy, PartialEq, Eq, Structural)]
pub struct Bucket {
    pub rps_lo: u64,
    pub rps_hi: u64,
    pub total: u64,
    pub pass: u64,
    pub fail_status: u64,
    pub fail_latency: u64,
    pub fail_size: u64,
    pub fail_content_type: u64,
    /// Outside the correctness denominator.
    pub rate_limited: u64,
}

/// The lower edge of the bucket that holds `rps`.
pub open spec fn bucket_lo(rps: u64) -> u64 {
    (rps / BUCKET_WIDTH_RPS * BUCKET_WIDTH_RPS) as u64
}

/// The upper edge of the bucket that begins at `lo`.
pub open spec fn bucket_hi(lo: u64) -> u64 {
    connection::capped_sum(lo, BUCKET_WIDTH_RPS)
}

/// The lower edge of the bucket that holds `rps`.
pub fn bucket_lo_of(rps: u64) -> (lo: u64)
    ensures
        lo == bucket_lo(rps),
        lo <= rps,
{
    rps / BUCKET_WIDTH_RPS * BUCKET_WIDTH_RPS
}

impl ThisTick {
    /// What this second counted.
    pub open spec fn counts(self) -> Counts {
        Counts {
            total: self.total as int,
            pass: self.pass as int,
            fail_status: self.fail_status as int,
            fail_latency: self.fail_latency as int,
            fail_size: self.fail_size as int,
            fail_content_type: self.fail_content_type as int,
            rate_limited: self.rate_limited as int,
        }
    }

    pub open spec fn of(t: Tally) -> ThisTick {
        ThisTick {
            total: t.total,
            pass: t.pass,
            fail_status: t.fail_status,
            fail_latency: t.fail_latency,
            fail_size: t.fail_size,
            fail_content_type: t.fail_content_type,
            rate_limited: t.rate_limited,
        }
    }

    pub fn from_tally(t: &Tally) -> (r: Self)
        ensures
            r == ThisTick::of(*t),
    {
        ThisTick {
            total: t.total,
            pass: t.pass,
            fail_status: t.fail_status,
            fail_latency: t.fail_latency,
            fail_size: t.fail_size,
            fail_content_type: t.fail_content_type,
            rate_limited: t.rate_limited,
        }
    }
}

impl Bucket {
    /// The bucket of a second in which `t` was counted.
    pub open spec fn of(rps: u64, t: Tally) -> Bucket {
        Bucket {
            rps_lo: bucket_lo(rps),
            rps_hi: bucket_hi(bucket_lo(rps)),
            total: t.total,
            pass: t.pass,
            fail_status: t.fail_status,
            fail_latency: t.fail_latency,
            fail_size: t.fail_size,
            fail_content_type: t.fail_content_type,
            rate_limited: t.rate_limited,
        }
    }

    pub fn from_tally(rps: u64, t: &Tally) -> (r: Self)
        ensures
            r == Bucket::of(rps, *t),
    {
        let rps_lo: u64 = bucket_lo_of(rps);
        Bucket {
            rps_lo,
            rps_hi: rps_lo.saturating_add(BUCKET_WIDTH_RPS),
            total: t.total,
            pass: t.pass,
            fail_status: t.fail_status,
            fail_latency: t.fail_latency,
            fail_size: t.fail_size,
            fail_content_type: t.fail_content_type,
            rate_limited: t.rate_limited,
        }
    }
}

/// One second of a run.
#[derive(Debug, Clone)]
pub struct Tick {
    pub elapsed_s: u64,
    pub achieved_rps_1s: u64,
    pub completed_total: u64,
    pub pass_total: u64,
    pub fail_status_total: u64,
    pub this_tick: ThisTick,
    pub percentiles_so_far: PercentilesSoFar,
    /// The bucket that this second's rate falls into.
    pub buckets: Vec<Bucket>,
    /// Responses kept during this second.
    pub sampled: Vec<SampledResponse>,
    /// V2-deflate snapshot of the corrected histogram.
    pub corrected_hist_v2: Vec<u8>,
    /// V2-deflate snapshot of the uncorrected histogram.
    pub uncorrected_hist_v2: Vec<u8>,
    /// The rate offered at the run's first rate-limit response, in thousandths.
    pub rate_limit_onset_mrps: Option<u64>,
    pub last_retry_after_ms: Option<u64>,
    pub backoff_us_total: u64,
    /// How the worker itself fared during this second.
    pub health: Health,
}

/// Sends out a run's ticks: what was counted when the last one went out, how many
/// went out, and how many seconds the run lasts.
#[derive(Debug, Clone, Copy, PartialEq, Eq, Structural)]
pub struct TickEmitter {
    pub prev: Tally,
    pub sent: u64,
    pub duration_s: u64,
}

/// What was counted between two looks at a tally.
pub open spec fn counted_since(now: Tally, prev: Tally) -> Tally {
    Tally {
        total: tally::since(now.total, prev.total),
        pass: tally::since(now.pass, prev.pass),
        fail_status: tally::since(now.fail_status, prev.fail_status),
        fail_latency: tally::since(now.fail_latency, prev.fail_latency),
        fail_size: tally::since(now.fail_size, prev.fail_size),
        fail_content_type: tally::since(now.fail_content_type, prev.fail_content_type),
        rate_limited: tally::since(now.rate_limited, prev.rate_limited),
    }
}

impl Tick {
    /// The tick of second `elapsed_s` of `live`, `prev` having been counted by
    /// the tick before.
    pub open spec fn ticks(self, elapsed_s: u64, prev: Tally, live: LiveRun) -> bool {
        let this = counted_since(live.tally, prev);
        &&& self.elapsed_s == elapsed_s
        &&& self.achieved_rps_1s == this.total
        &&& self.completed_total == live.tally.total
        &&& self.pass_total == live.tally.pass
        &&& self.fail_status_total == live.tally.fail_status
        &&& self.this_tick == ThisTick::of(this)
        &&& self.percentiles_so_far == (PercentilesSoFar {
            p50_us: hist::hist_quantile(
                hist::latency_layout(),
                hist::hist_counts(live.histos.corrected),
                500,
            ),
            p99_us: hist::hist_quantile(
                hist::latency_layout(),
                hist::hist_counts(live.histos.corrected),
                990,
            ),
        })
        &&& self.percentiles_so_far.p50_us <= self.percentiles_so_far.p99_us
        &&& self.buckets@ == seq![Bucket::of(this.total, this)]
        &&& connection::sample_views(self.sampled@) == connection::sample_views(live.samples@)
        &&& hist::is_snapshot(
            self.corrected_hist_v2@,
            hist::latency_layout(),
            hist::hist_counts(live.histos.corrected),
        )
        &&& hist::is_snapshot(
            self.uncorrected_hist_v2@,
            hist::latency_layout(),
            hist::hist_counts(live.histos.uncorrected),
        )
        &&& self.rate_limit_onset_mrps == live.signal.first_429_mrps
        &&& self.last_retry_after_ms == live.signal.last_retry_after_ms
        &&& self.backoff_us_total == live.signal.backoff_us_total
        &&& self.health == live.health
    }
}

/// `after` is the run once a tick has taken the responses kept and what the worker
/// noted of itself; everything else stays.
pub open spec fn handed_over(live: LiveRun, after: LiveRun) -> bool {
    &&& after.samples@.len() == 0
    &&& after.health == Health::fine()
    &&& after.histos == live.histos
    &&& after.tally == live.tally
    &&& after.sample_seq == live.sample_seq
    &&& after.signal == live.signal
    &&& after.stopping == live.stopping
}

impl TickEmitter {
    /// No tick has gone out yet.
    pub open spec fn fresh(self) -> bool {
        self.prev@ == Counts::zero() && self.sent == 0
    }

    /// `self` sends out `tick` of `live` and is `after` from then on: ticks are
    /// numbered from 1, and none comes after the run's last second.
    pub open spec fn emits(self, live: LiveRun, tick: Tick, after: TickEmitter) -> bool {
        &&& self.sent < self.duration_s
        &&& tick.ticks((self.sent + 1) as u64, self.prev, live)
        &&& after == TickEmitter {
            prev: live.tally,
            sent: (self.sent + 1) as u64,
            duration_s: self.duration_s,
        }
    }

    /// The ticks of a run that lasts `duration_s` seconds.
    pub fn new(duration_s: u64) -> (e: Self)
        ensures
            e.fresh(),
            e.duration_s == duration_s,
    {
        TickEmitter { prev: Tally::zero(), sent: 0, duration_s }
    }

    /// The second at whose end the next tick is due; `None` after the last.
    pub fn next_due(&self) -> (r: Option<u64>)
        ensures
            r == if self.sent < self.duration_s {
                Some((self.sent + 1) as u64)
            } else {
                None
            },
    {
        if self.sent < self.duration_s {
            Some(self.sent + 1)
        } else {
            None
        }
    }

    /// The next tick; `None` after the last, and nothing changes then. The
    /// responses kept so far go with it, and so does what the worker noted of
    /// itself.
    pub fn emit(&mut self, live: &mut LiveRun) -> (r: Option<Tick>)
        requires
            old(live).wf(),
        ensures
            r is Some <==> old(self).sent < old(self).duration_s,
            r matches Some(tick) ==> {
                &&& old(self).emits(*old(live), tick, *final(self))
                &&& handed_over(*old(live), *final(live))
            },
            r is None ==> *final(self) == *old(self) && *final(live) == *old(live),
            final(live).wf(),
    {
        let elapsed_s: u64 = match self.next_due() {
            Some(s) => s,
            None => return None,
        };
        self.sent = elapsed_s;
        let this: Tally = live.tally.since(&self.prev);
        self.prev = live.tally;
        let p50_us: u64 = hist::value_at_quantile(&live.histos.corrected, 500);
        let p99_us: u64 = hist::value_at_quantile(&live.histos.corrected, 990);
        let corrected_hist_v2: Vec<u8> = hist::serialize_v2(&live.histos.corrected);
        let uncorrected_hist_v2: Vec<u8> = hist::serialize_v2(&live.histos.uncorrected);
        let mut buckets: Vec<Bucket> = Vec::new();
        buckets.push(Bucket::from_tally(this.total, &this));
        let mut sampled: Vec<SampledResponse> = Vec::new();
        std::mem::swap(&mut sampled, &mut live.samples);
        let health: Health = live.health;
        live.health = Health::new();
        Some(Tick {
            elapsed_s,
            achieved_rps_1s: this.total,
            completed_total: live.tally.total,
            pass_total: live.tally.pass,
            fail_status_total: live.tally.fail_status,
            this_tick: ThisTick::from_tally(&this),
            percentiles_so_far: PercentilesSoFar { p50_us, p99_us },
            buckets,
            sampled,
            corrected_hist_v2,
            uncorrected_hist_v2,
            rate_limit_onset_mrps: live.signal.first_429_mrps,
            last_retry_after_ms: live.signal.last_retry_after_ms,
            backoff_us_total: live.signal.backoff_us_total,
            health,
        })
    }
}

/// Ticks miss nothing and count nothing twice: what came before a tick and the
/// tick's own counts make up what has been counted by then.
pub proof fn law_ticks_add_up(now: Tally, prev: Tally)
    requires
        prev@.at_most(now@),
    ensures
        prev@.plus(counted_since(now, prev)@) == now@,
        prev@.partitioned() && now@.partitioned() ==> counted_since(now, prev)@.partitioned(),
{
}

/// What the ticks count, one after the other.
pub open spec fn ticked(ticks: Seq<Tick>) -> Seq<Counts> {
    Seq::new(ticks.len(), |i: int| ticks[i].this_tick.counts())
}

/// The ticks of a run are numbered 1, 2, 3 and so on, there are never more of them
/// than the run has seconds, and the totals in the last one are the sums over all
/// of them: `emitters` is what sends them out, before the first and after each, and
/// `lives` is the run as each tick found it, which only ever counts up.
pub proof fn law_ticks_are_numbered_and_totalled(
    emitters: Seq<TickEmitter>,
    lives: Seq<LiveRun>,
    ticks: Seq<Tick>,
)
    requires
        emitters.len() == ticks.len() + 1,
        lives.len() == ticks.len(),
        emitters.first().fresh(),
        forall|i: int|
            0 <= i < ticks.len() ==> emitters[i].emits(
                lives[i],
                #[trigger] ticks[i],
                emitters[i + 1],
            ),
        forall|i: int|
            0 <= i < ticks.len() ==> emitters[i].prev@.at_most((#[trigger] lives[i]).tally@),
    ensures
        ticks.len() <= emitters.first().duration_s,
        forall|i: int| 0 <= i < ticks.len() ==> (#[trigger] ticks[i]).elapsed_s == i + 1,
        Counts::sum(ticked(ticks)) == emitters.last().prev@,
        ticks.len() > 0 ==> {
            let sum = Counts::sum(ticked(ticks));
            &&& ticks.last().completed_total == sum.total
            &&& ticks.last().pass_total == sum.pass
            &&& ticks.last().fail_status_total == sum.fail_status
        },
        emitters.last().sent == ticks.len(),
        emitters.last().duration_s == emitters.first().duration_s,
    decreases ticks.len(),
{
    if ticks.len() > 0 {
        let n = ticks.len() - 1;
        let fewer = emitters.drop_last();
        assert forall|i: int| 0 <= i < n implies fewer[i].emits(
            lives.drop_last()[i],
            #[trigger] ticks.drop_last()[i],
            fewer[i + 1],
        ) by {
            assert(emitters[i].emits(lives[i], ticks[i], emitters[i + 1]));
        }
        assert forall|i: int| 0 <= i < n implies fewer[i].prev@.at_most(
            (#[trigger] lives.drop_last()[i]).tally@,
        ) by {
            assert(emitters[i].prev@.at_most(lives[i].tally@));
        }
        law_ticks_are_numbered_and_totalled(fewer, lives.drop_last(), ticks.drop_last());
        assert(emitters[n].emits(lives[n], ticks[n], emitters[n + 1]));
        assert(emitters[n].prev@.at_most(lives[n].tally@));
        assert forall|i: int| 0 <= i < ticks.len() implies (#[trigger] ticks[i]).elapsed_s == i
            + 1 by {
            if i < n {
                assert(ticks.drop_last()[i].elapsed_s == i + 1);
            }
        }
        assert(ticked(ticks).drop_last() =~= ticked(ticks.drop_last()));
        law_ticks_add_up(lives[n].tally, emitters[n].prev);
    }
}

/// What came of a run.
#[derive(Debug)]
pub struct RunReport {
    pub spec: RunSpec,
    pub elapsed_ms: u64,
    pub histos: Histos,
    /// Completed responses over the time the run took.
    pub achieved_rps: Rate,
    pub completed: u64,
    pub pass: u64,
    pub fail_status: u64,
    pub fail_latency: u64,
    pub fail_size: u64,
    pub fail_content_type: u64,
    pub rate_limited: u64,
    pub conn_errors: u64,
    pub timeouts: u64,
    pub corrected: Summary,
    pub uncorrected: Summary,
    /// The rate offered at the first rate-limit response, in thousandths.
    pub first_429_mrps: Option<u64>,
    pub last_retry_after_ms: Option<u64>,
    pub backoff_us_total: u64,
}

/// The tallies of all connections together.
pub open spec fn all_counts(results: Seq<ConnResult>) -> Counts {
    Counts::sum(Seq::new(results.len(), |i: int| results[i].tally@))
}

/// The connections that failed.
pub open spec fn all_errors(results: Seq<ConnResult>) -> nat
    decreases results.len(),
{
    if results.len() == 0 {
        0
    } else {
        all_errors(results.drop_last()) + results.last().conn_errors as nat
    }
}

/// The connections that timed out.
pub open spec fn all_timeouts(results: Seq<ConnResult>) -> nat
    decreases results.len(),
{
    if results.len() == 0 {
        0
    } else {
        all_timeouts(results.drop_last()) + results.last().timeouts as nat
    }
}

/// The tallies of all connections together, or `None` where they do not fit.
pub fn total_of(results: &Vec<ConnResult>) -> (r: Option<Tally>)
    ensures
        r is Some <==> all_counts(results@).fits(),
        r matches Some(t) ==> t@ == all_counts(results@),
{
    let ghost all = Seq::new(results@.len(), |i: int| results@[i].tally@);
    let mut sum: Tally = Tally::zero();
    let mut i: usize = 0;
    while i < results.len()
        invariant
            i <= results.len(),
            all == Seq::new(results@.len(), |i: int| results@[i].tally@),
            sum@ == Counts::sum(all.take(i as int)),
        decreases results.len() - i,
    {
        assert(all.take(i + 1).drop_last() =~= all.take(i as int));
        if !sum.can_absorb(&results[i].tally) {
            proof {
                tally::lemma_part_at_most_sum(all, i + 1);
            }
            return None;
        }
        sum.absorb(&results[i].tally);
        i = i + 1;
    }
    assert(all.take(all.len() as int) =~= all);
    Some(sum)
}

impl RunReport {
    /// The report of a run that its connections and `live` counted.
    pub open spec fn reports(
        self,
        spec: RunSpec,
        results: Seq<ConnResult>,
        live: LiveRun,
        elapsed_us: u64,
    ) -> bool {
        &&& self.spec == spec
        &&& self.elapsed_ms == elapsed_us / 1000
        &&& self.histos == live.histos
        &&& self.achieved_rps == (Rate { requests: self.completed, per_us: elapsed_us })
        &&& self.counts() == all_counts(results)
        &&& self.conn_errors == all_errors(results)
        &&& self.timeouts == all_timeouts(results)
        &&& self.corrected == Summary::of(
            hist::latency_layout(),
            hist::hist_counts(live.histos.corrected),
        )
        &&& self.uncorrected == Summary::of(
            hist::latency_layout(),
            hist::hist_counts(live.histos.uncorrected),
        )
        &&& self.first_429_mrps == live.signal.first_429_mrps
        &&& self.last_retry_after_ms == live.signal.last_retry_after_ms
        &&& self.backoff_us_total == live.signal.backoff_us_total
    }

    /// The report's counts.
    pub open spec fn counts(self) -> Counts {
        Counts {
            total: self.completed as int,
            pass: self.pass as int,
            fail_status: self.fail_status as int,
            fail_latency: self.fail_latency as int,
            fail_size: self.fail_size as int,
            fail_content_type: self.fail_content_type as int,
            rate_limited: self.rate_limited as int,
        }
    }

    /// Close a run that took `elapsed_us`.
    pub fn close(spec: RunSpec, results: &Vec<ConnResult>, live: LiveRun, elapsed_us: u64) -> (r:
        RunReport)
        requires
            live.wf(),
            all_counts(results@).fits(),
            forall|i: int| 0 <= i < results@.len() ==> (#[trigger] results@[i]).wf(),
        ensures
            r.reports(spec, results@, live, elapsed_us),
            r.counts().partitioned(),
            r.conn_errors + r.timeouts <= results@.len(),
            live.histos.ordered() ==> r.corrected.percentiles_at_least(r.uncorrected),
    {
        let tally: Tally = total_of(results).unwrap();
        let mut conn_errors: u64 = 0;
        let mut timeouts: u64 = 0;
        let mut i: usize = 0;
        while i < results.len()
            invariant
                i <= results.len(),
                forall|i: int| 0 <= i < results@.len() ==> (#[trigger] results@[i]).wf(),
                conn_errors == all_errors(results@.take(i as int)),
                timeouts == all_timeouts(results@.take(i as int)),
                conn_errors + timeouts <= i,
            decreases results.len() - i,
        {
            assert(results@.take(i + 1).drop_last() =~= results@.take(i as int));
            assert(results@[i as int].wf());
            conn_errors = conn_errors + results[i].conn_errors;
            timeouts = timeouts + results[i].timeouts;
            i = i + 1;
        }
        proof {
            assert(results@.take(results@.len() as int) =~= results@);
            lemma_all_partitioned(results@);
        }
        let corrected: Summary = Summary::from(&live.histos.corrected);
        let uncorrected: Summary = Summary::from(&live.histos.uncorrected);
        RunReport {
            spec,
            elapsed_ms: elapsed_us / 1000,
            histos: live.histos,
            achieved_rps: Rate { requests: tally.total, per_us: elapsed_us },
            completed: tally.total,
            pass: tally.pass,
            fail_status: tally.fail_status,
            fail_latency: tally.fail_latency,
            fail_size: tally.fail_size,
            fail_content_type: tally.fail_content_type,
            rate_limited: tally.rate_limited,
            conn_errors,
            timeouts,
            corrected,
            uncorrected,
            first_429_mrps: live.signal.first_429_mrps,
            last_retry_after_ms: live.signal.last_retry_after_ms,
            backoff_us_total: live.signal.backoff_us_total,
        }
    }

    /// The responses that count towards correctness.
    pub fn correctness_denominator(&self) -> (d: u64)
        ensures
            d == tally::judged(self.completed, self.rate_limited),
            self.counts().partitioned() ==> d == self.counts().denominator(),
    {
        self.completed.saturating_sub(self.rate_limited)
    }
}

proof fn lemma_all_partitioned(results: Seq<ConnResult>)
    requires
        forall|i: int| 0 <= i < results.len() ==> (#[trigger] results[i]).wf(),
    ensures
        all_counts(results).partitioned(),
    decreases results.len(),
{
    let all = Seq::new(results.len(), |i: int| results[i].tally@);
    if results.len() > 0 {
        let rest = results.drop_last();
        lemma_all_partitioned(rest);
        assert(all.drop_last() =~= Seq::new(rest.len(), |i: int| rest[i].tally@));
        assert(results[results.len() - 1].wf());
    }
}

/// A tick shows the latencies measured from the slots. Where the run has recorded
/// `from_slots` as corrected and `from_sends` as uncorrected latencies, reading back
/// the tick's corrected snapshot gives a histogram of exactly the first and its
/// uncorrected snapshot one of exactly the second, and the percentiles are those of
/// any histogram of the first.
pub proof fn law_a_tick_shows_latencies_from_the_slots(
    tick: Tick,
    elapsed_s: u64,
    prev: Tally,
    live: LiveRun,
    from_slots: Seq<u64>,
    from_sends: Seq<u64>,
)
    requires
        tick.ticks(elapsed_s, prev, live),
        hist::holds(hist::hist_counts(live.histos.corrected), from_slots),
        hist::holds(hist::hist_counts(live.histos.uncorrected), from_sends),
        from_slots.len() <= i64::MAX,
        from_sends.len() <= i64::MAX,
    ensures
        hist::v2_read(tick.corrected_hist_v2@) matches Some((layout, counts)) && layout == (
            1u64,
            60_000_000u64,
            3u8,
        ) && hist::holds(counts, from_slots),
        hist::v2_read(tick.uncorrected_hist_v2@) matches Some((layout, counts)) && layout == (
            1u64,
            60_000_000u64,
            3u8,
        ) && hist::holds(counts, from_sends),
        forall|counts: Seq<u64>| #[trigger]
            hist::holds(counts, from_slots) ==> {
                &&& tick.percentiles_so_far.p50_us == hist::hist_quantile(
                    (1u64, 60_000_000u64, 3u8),
                    counts,
                    500,
                )
                &&& tick.percentiles_so_far.p99_us == hist::hist_quantile(
                    (1u64, 60_000_000u64, 3u8),
                    counts,
                    990,
                )
            },
{
    hist::lemma_held_is_encodable(hist::hist_counts(live.histos.corrected), from_slots);
    hist::lemma_held_is_encodable(hist::hist_counts(live.histos.uncorrected), from_sends);
    assert forall|counts: Seq<u64>| #[trigger] hist::holds(counts, from_slots) implies counts
        == hist::hist_counts(live.histos.corrected) by {
        hist::law_values_settle_the_counts(
            counts,
            hist::hist_counts(live.histos.corrected),
            from_slots,
        );
    }
}

/// A response shows in the next tick by the time since its slot: two runs that differ
/// in nothing but how late a request was against its slot tell so in their corrected
/// snapshots.
pub proof fn law_a_response_shows_in_the_next_tick(
    c: Connection,
    rules: RunRules,
    live: LiveRun,
    p: response::ResponseView,
    now_us: u64,
    after: Connection,
    live_after: LiveRun,
    action: ConnAction,
    tick: Tick,
    elapsed_s: u64,
    prev: Tally,
    from_slots: Seq<u64>,
    from_sends: Seq<u64>,
)
    requires
        c.wf(),
        c.phase is Reading,
        c.phase->Reading_sent_us < now_us,
        live.wf(),
        c.answered(rules, live, p, now_us, after, live_after, action),
        tick.ticks(elapsed_s, prev, live_after),
        hist::holds(hist::hist_counts(live.histos.corrected), from_slots),
        hist::holds(hist::hist_counts(live.histos.uncorrected), from_sends),
        from_slots.len() < i64::MAX,
        from_sends.len() < i64::MAX,
    ensures
        hist::v2_read(tick.corrected_hist_v2@) matches Some((_, counts)) && hist::holds(
            counts,
            from_slots.push((now_us - c.sched.slot_of(c.sched.complete as nat)) as u64),
        ),
        hist::v2_read(tick.uncorrected_hist_v2@) matches Some((_, counts)) && hist::holds(
            counts,
            from_sends.push((now_us - c.phase->Reading_sent_us) as u64),
        ),
{
    connection::law_latency_is_measured_from_the_slot(
        c,
        rules,
        live,
        p,
        now_us,
        after,
        live_after,
        action,
        from_slots,
        from_sends,
    );
    law_a_tick_shows_latencies_from_the_slots(
        tick,
        elapsed_s,
        prev,
        live_after,
        from_slots.push((now_us - c.sched.slot_of(c.sched.complete as nat)) as u64),
        from_sends.push((now_us - c.phase->Reading_sent_us) as u64),
    );
}

/// What a tick counts is the difference of two looks at the run: every count of the
/// second is what the run has now, less what it had at the tick before; the totals
/// are what it has now; and the signal and the worker's own state are the run's.
pub proof fn law_a_tick_counts_its_own_second(
    tick: Tick,
    elapsed_s: u64,
    prev: Tally,
    live: LiveRun,
)
    requires
        tick.ticks(elapsed_s, prev, live),
        prev@.at_most(live.tally@),
    ensures
        tick.elapsed_s == elapsed_s,
        tick.this_tick.total == live.tally.total - prev.total,
        tick.this_tick.pass == live.tally.pass - prev.pass,
        tick.this_tick.fail_status == live.tally.fail_status - prev.fail_status,
        tick.this_tick.fail_latency == live.tally.fail_latency - prev.fail_latency,
        tick.this_tick.fail_size == live.tally.fail_size - prev.fail_size,
        tick.this_tick.fail_content_type == live.tally.fail_content_type - prev.fail_content_type,
        tick.this_tick.rate_limited == live.tally.rate_limited - prev.rate_limited,
        tick.achieved_rps_1s == live.tally.total - prev.total,
        tick.completed_total == live.tally.total,
        tick.pass_total == live.tally.pass,
        tick.fail_status_total == live.tally.fail_status,
        tick.rate_limit_onset_mrps == live.signal.first_429_mrps,
        tick.last_retry_after_ms == live.signal.last_retry_after_ms,
        tick.backoff_us_total == live.signal.backoff_us_total,
        tick.health == live.health,
        connection::sample_views(tick.sampled@) == connection::sample_views(live.samples@),
{
}

/// A second goes into the bucket that its rate falls into: the one bucket of a tick
/// begins at a multiple of ten, is ten wide, holds the second's rate, and has the
/// second's counts.
pub proof fn law_a_second_falls_into_one_bucket(
    tick: Tick,
    elapsed_s: u64,
    prev: Tally,
    live: LiveRun,
)
    requires
        tick.ticks(elapsed_s, prev, live),
        tick.achieved_rps_1s <= u64::MAX - 10,
    ensures
        tick.buckets@.len() == 1,
        ({
            let b = tick.buckets@[0];
            &&& b.rps_lo % 10 == 0
            &&& b.rps_hi == b.rps_lo + 10
            &&& b.rps_lo <= tick.achieved_rps_1s < b.rps_hi
            &&& b.total == tick.this_tick.total
            &&& b.pass == tick.this_tick.pass
            &&& b.fail_status == tick.this_tick.fail_status
            &&& b.fail_latency == tick.this_tick.fail_latency
            &&& b.fail_size == tick.this_tick.fail_size
            &&& b.fail_content_type == tick.this_tick.fail_content_type
            &&& b.rate_limited == tick.this_tick.rate_limited
        }),
{
}

/// Ticks come one second after the other for as long as the run lasts, and each takes
/// over where the one before left off.
pub proof fn law_ticks_follow_one_another(
    e: TickEmitter,
    live: LiveRun,
    tick: Tick,
    after: TickEmitter,
)
    requires
        e.emits(live, tick, after),
    ensures
        e.sent < e.duration_s,
        tick.elapsed_s == e.sent + 1,
        after.sent == e.sent + 1,
        after.prev == live.tally,
        after.duration_s == e.duration_s,
        e.fresh() ==> {
            &&& tick.elapsed_s == 1
            &&& tick.this_tick.total == live.tally.total
            &&& tick.this_tick.pass == live.tally.pass
            &&& tick.this_tick.rate_limited == live.tally.rate_limited
        },
{
    assert(e.prev@.total == e.prev.total);
    assert(e.prev@.pass == e.prev.pass);
    assert(e.prev@.rate_limited == e.prev.rate_limited);
}

/// The sum of one count over all connections.
pub open spec fn over_results(results: Seq<ConnResult>, count: spec_fn(ConnResult) -> u64) -> nat
    decreases results.len(),
{
    if results.len() == 0 {
        0
    } else {
        over_results(results.drop_last(), count) + count(results.last()) as nat
    }
}

proof fn lemma_over_results(results: Seq<ConnResult>)
    ensures
        all_counts(results).total == over_results(results, |r: ConnResult| r.tally.total),
        all_counts(results).pass == over_results(results, |r: ConnResult| r.tally.pass),
        all_counts(results).fail_status == over_results(
            results,
            |r: ConnResult| r.tally.fail_status,
        ),
        all_counts(results).fail_latency == over_results(
            results,
            |r: ConnResult| r.tally.fail_latency,
        ),
        all_counts(results).fail_size == over_results(results, |r: ConnResult| r.tally.fail_size),
        all_counts(results).fail_content_type == over_results(
            results,
            |r: ConnResult| r.tally.fail_content_type,
        ),
        all_counts(results).rate_limited == over_results(
            results,
            |r: ConnResult| r.tally.rate_limited,
        ),
        all_errors(results) == over_results(results, |r: ConnResult| r.conn_errors),
        all_timeouts(results) == over_results(results, |r: ConnResult| r.timeouts),
    decreases results.len(),
{
    if results.len() > 0 {
        let rest = results.drop_last();
        lemma_over_results(rest);
        assert(Seq::new(results.len(), |i: int| results[i].tally@).drop_last() =~= Seq::new(
            rest.len(),
            |i: int| rest[i].tally@,
        ));
    }
}

/// A report adds up its connections: each of its counts is the sum over all of them,
/// and the rate achieved is the completed responses over the time the run took.
pub proof fn law_a_report_adds_up_its_connections(
    report: RunReport,
    spec: RunSpec,
    results: Seq<ConnResult>,
    live: LiveRun,
    elapsed_us: u64,
)
    requires
        report.reports(spec, results, live, elapsed_us),
    ensures
        report.completed == over_results(results, |r: ConnResult| r.tally.total),
        report.pass == over_results(results, |r: ConnResult| r.tally.pass),
        report.fail_status == over_results(results, |r: ConnResult| r.tally.fail_status),
        report.fail_latency == over_results(results, |r: ConnResult| r.tally.fail_latency),
        report.fail_size == over_results(results, |r: ConnResult| r.tally.fail_size),
        report.fail_content_type == over_results(
            results,
            |r: ConnResult| r.tally.fail_content_type,
        ),
        report.rate_limited == over_results(results, |r: ConnResult| r.tally.rate_limited),
        report.conn_errors == over_results(results, |r: ConnResult| r.conn_errors),
        report.timeouts == over_results(results, |r: ConnResult| r.timeouts),
        report.achieved_rps.requests == report.completed,
        report.achieved_rps.per_us == elapsed_us,
        report.spec == spec,
        report.elapsed_ms * 1000 <= elapsed_us < report.elapsed_ms * 1000 + 1000,
        report.first_429_mrps == live.signal.first_429_mrps,
        report.last_retry_after_ms == live.signal.last_retry_after_ms,
        report.backoff_us_total == live.signal.backoff_us_total,
{
    lemma_over_results(results);
}

/// A report's two summaries are each of their own latencies: the corrected one of
/// those measured from the slots, the uncorrected one of those measured from the
/// sends.
pub proof fn law_a_report_summarises_latencies_from_the_slots(
    report: RunReport,
    spec: RunSpec,
    results: Seq<ConnResult>,
    live: LiveRun,
    elapsed_us: u64,
    from_slots: Seq<u64>,
    from_sends: Seq<u64>,
    slots: Seq<u64>,
    sends: Seq<u64>,
)
    requires
        report.reports(spec, results, live, elapsed_us),
        live.wf(),
        hist::holds(hist::hist_counts(live.histos.corrected), from_slots),
        hist::holds(hist::hist_counts(live.histos.uncorrected), from_sends),
        hist::holds(slots, from_slots),
        hist::holds(sends, from_sends),
    ensures
        report.corrected.p50_us == hist::hist_quantile((1u64, 60_000_000u64, 3u8), slots, 500),
        report.corrected.p95_us == hist::hist_quantile((1u64, 60_000_000u64, 3u8), slots, 950),
        report.corrected.p99_us == hist::hist_quantile((1u64, 60_000_000u64, 3u8), slots, 990),
        report.corrected.p999_us == hist::hist_quantile((1u64, 60_000_000u64, 3u8), slots, 999),
        report.corrected.max_us == hist::hist_max((1u64, 60_000_000u64, 3u8), slots),
        report.uncorrected.p50_us == hist::hist_quantile((1u64, 60_000_000u64, 3u8), sends, 500),
        report.uncorrected.p95_us == hist::hist_quantile((1u64, 60_000_000u64, 3u8), sends, 950),
        report.uncorrected.p99_us == hist::hist_quantile((1u64, 60_000_000u64, 3u8), sends, 990),
        report.uncorrected.p999_us == hist::hist_quantile((1u64, 60_000_000u64, 3u8), sends, 999),
        report.uncorrected.max_us == hist::hist_max((1u64, 60_000_000u64, 3u8), sends),
        report.corrected.count == live.tally.total,
        report.uncorrected.count == live.tally.total,
        report.histos == live.histos,
{
    hist::law_values_settle_the_counts(slots, hist::hist_counts(live.histos.corrected), from_slots);
    hist::law_values_settle_the_counts(
        sends,
        hist::hist_counts(live.histos.uncorrected),
        from_sends,
    );
}

/// Buckets are ten wide and begin at multiples of ten, and a rate falls into the one
/// between whose edges it lies.
pub proof fn law_buckets_are_ten_wide(rps: u64)
    requires
        rps <= u64::MAX - 10,
    ensures
        bucket_lo(rps) % 10 == 0,
        bucket_lo(rps) <= rps < bucket_lo(rps) + 10,
        bucket_hi(bucket_lo(rps)) == bucket_lo(rps) + 10,
{
}

/// What is kept for a tick goes out with it and only with it: the next tick of a run
/// to which nothing has happened since carries no sample and no lateness or failure of
/// the worker, counts nothing for its second, and shows the same totals, percentiles
/// and signal.
pub proof fn law_nothing_goes_out_twice(
    e: TickEmitter,
    live: LiveRun,
    tick: Tick,
    mid: TickEmitter,
    live_after: LiveRun,
    next: Tick,
    after: TickEmitter,
)
    requires
        e.emits(live, tick, mid),
        handed_over(live, live_after),
        mid.emits(live_after, next, after),
    ensures
        next.sampled@.len() == 0,
        next.health.sched_slip_us == 0,
        !next.health.client_saturated,
        next.health.conn_errors == 0,
        next.health.timeouts == 0,
        next.this_tick.total == 0,
        next.this_tick.pass == 0,
        next.this_tick.fail_latency == 0,
        next.this_tick.rate_limited == 0,
        next.elapsed_s == tick.elapsed_s + 1,
        next.completed_total == tick.completed_total,
        next.pass_total == tick.pass_total,
        next.fail_status_total == tick.fail_status_total,
        next.percentiles_so_far == tick.percentiles_so_far,
        next.rate_limit_onset_mrps == tick.rate_limit_onset_mrps,
        next.last_retry_after_ms == tick.last_retry_after_ms,
        next.backoff_us_total == tick.backoff_us_total,
        live_after.stopping == live.stopping,
        live_after.sample_seq == live.sample_seq,
{
    assert(connection::sample_views(next.sampled@).len() == next.sampled@.len());
    assert(connection::sample_views(live_after.samples@).len() == live_after.samples@.len());
}

} // verus!

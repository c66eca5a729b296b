//! One connection of a run, as a state machine.
//!
//! The program around it owns the socket and the clock: it performs the action
//! that [`Connection::step`] asks for and hands back what happened. Everything
//! that decides, counts or measures is here.

use vstd::prelude::*;

use crate::hist::{self, Histos};
use crate::response::{self, ParsedResponse, ReadBuffer, ReadStep};
use crate::sched::{ConnSched, RateSchedule};
use crate::tally::{Counts, Tally, Verdict};
use crate::text;
use crate::worker::{self, InlineAssert, RlAction, RunPlan, RunSpec};

verus! {

/// A wait longer than this sleeps first; the rest is spun away.
pub const SPIN_THRESHOLD_US: u64 = 100;

/// What the connections of a run judge and pace by.
#[derive(Debug)]
pub struct RunRules {
    pub assertions: InlineAssert,
    pub rate_limit_action: RlAction,
    pub max_backoff_ms: u64,
    pub record_onset: bool,
    pub timeout_us: u64,
    /// When the run ends.
    pub deadline_us: u64,
    /// The schedule of all connections together.
    pub offered: RateSchedule,
}

/// One response kept for evaluation elsewhere.
#[derive(Debug, Clone)]
pub struct SampledResponse {
    /// The rate offered when the request went out, in thousandths.
    pub mrps_at_send: u64,
    pub status: u16,
    pub corrected_lat_us: u64,
    pub body: String,
    pub body_truncated: bool,
}

/// `SampledResponse` as plain values.
pub struct SampleView {
    pub mrps_at_send: u64,
    pub status: u16,
    pub corrected_lat_us: u64,
    pub body: Seq<char>,
    pub body_truncated: bool,
}

impl View for SampledResponse {
    type V = SampleView;

    open spec fn view(&self) -> SampleView {
        SampleView {
            mrps_at_send: self.mrps_at_send,
            status: self.status,
            corrected_lat_us: self.corrected_lat_us,
            body: self.body@,
            body_truncated: self.body_truncated,
        }
    }
}

/// Samples as plain values.
pub open spec fn sample_views(samples: Seq<SampledResponse>) -> Seq<SampleView> {
    Seq::new(samples.len(), |i: int| samples[i]@)
}

/// What a run learned about the target's rate limit.
#[derive(Debug, Clone, Copy, PartialEq, Eq, Structural)]
pub struct RateLimitSignal {
    /// The rate offered at the first rate-limit response, in thousandths.
    pub first_429_mrps: Option<u64>,
    /// The wait that the latest Retry-After advertised.
    pub last_retry_after_ms: Option<u64>,
    /// All waits granted together.
    pub backoff_us_total: u64,
}

/// How a worker itself fared since its last tick.
#[derive(Debug, Clone, Copy, PartialEq, Eq, Structural)]
pub struct Health {
    /// The most by which a request went out after the worker meant to send it.
    pub sched_slip_us: u64,
    /// Whether some request went out so late that the next one's turn had come: the
    /// worker, not the target, was the bottleneck.
    pub client_saturated: bool,
    /// Connections that failed.
    pub conn_errors: u64,
    /// Connections whose response did not come in time.
    pub timeouts: u64,
}

/// What all connections of a run share while it is going on.
#[derive(Debug)]
pub struct LiveRun {
    pub histos: Histos,
    pub tally: Tally,
    pub sample_seq: u64,
    pub samples: Vec<SampledResponse>,
    pub signal: RateLimitSignal,
    pub health: Health,
    /// Set when the run shall end before its time.
    pub stopping: bool,
}

/// What one connection counted.
#[derive(Debug, Clone, Copy, PartialEq, Eq, Structural)]
pub struct ConnResult {
    pub tally: Tally,
    pub conn_errors: u64,
    pub timeouts: u64,
}

/// Where a connection is in its cycle.
#[derive(Debug, Clone, Copy, PartialEq, Eq, Structural)]
pub enum Phase {
    /// About to ask the schedule for the next slot.
    Pacing,
    /// Waiting for `due_us`.
    Waiting { due_us: u64 },
    /// Sending a request.
    Writing { intended_us: u64, sent_us: u64 },
    /// Waiting for the response.
    Reading { intended_us: u64, sent_us: u64, deadline_us: u64 },
    Done,
}

/// What happened.
#[derive(Debug)]
pub enum ConnEvent {
    /// Time has passed.
    Clock,
    /// The request is on the wire.
    Written,
    WriteFailed,
    /// Bytes came in; none means that the target closed the connection.
    Received(Vec<u8>),
    ReadFailed,
    ReadTimedOut,
}

/// What to do next.
#[derive(Debug, Clone, Copy, PartialEq, Eq, Structural)]
pub enum ConnAction {
    /// Report the time at once.
    Poll,
    /// Let other tasks run, then report the time.
    Yield,
    /// Sleep until `until_us`, then report the time.
    Sleep { until_us: u64 },
    /// Send the request.
    Send,
    /// Read up to `room` bytes within `within_us`.
    Receive { room: usize, within_us: u64 },
    /// Close the connection.
    Finish,
}

#[derive(Debug)]
pub struct Connection {
    pub sched: ConnSched,
    pub buf: ReadBuffer,
    pub result: ConnResult,
    pub phase: Phase,
}

/// Latency from `from_us` to `now_us`, at least one microsecond.
pub open spec fn latency(now_us: u64, from_us: u64) -> u64 {
    if now_us > from_us {
        (now_us - from_us) as u64
    } else {
        1
    }
}

/// The sum, at most the largest `u64`.
pub open spec fn capped_sum(a: u64, b: u64) -> u64 {
    if a + b <= u64::MAX {
        (a + b) as u64
    } else {
        u64::MAX
    }
}

/// `ms` milliseconds in microseconds, at most the largest `u64`.
pub open spec fn millis_us(ms: u64) -> u64 {
    if ms * 1000 <= u64::MAX {
        (ms * 1000) as u64
    } else {
        u64::MAX
    }
}

impl RunRules {
    /// These are the rules of `spec` under `plan`.
    pub open spec fn set_by(self, spec: RunSpec, plan: RunPlan) -> bool {
        &&& self.assertions.set_by(spec)
        &&& self.rate_limit_action == spec.rate_limit_action
        &&& self.max_backoff_ms == spec.max_backoff_ms
        &&& self.record_onset == spec.record_onset
        &&& self.timeout_us == spec.timeout_us
        &&& self.deadline_us == plan.duration_us
        &&& self.offered == plan.offered
    }

    pub fn new(spec: &RunSpec, plan: &RunPlan) -> (r: Self)
        ensures
            r.set_by(*spec, *plan),
    {
        RunRules {
            assertions: InlineAssert::from_spec(spec),
            rate_limit_action: spec.rate_limit_action,
            max_backoff_ms: spec.max_backoff_ms,
            record_onset: spec.record_onset,
            timeout_us: spec.timeout_us,
            deadline_us: plan.duration_us,
            offered: plan.offered,
        }
    }

    /// The wait granted to a response that asked for `retry_after_ms`: up to
    /// the cap, and none under a policy that does not back off.
    pub open spec fn granted_us(self, retry_after_ms: Option<u64>) -> u64 {
        if self.rate_limit_action != RlAction::Backoff {
            0
        } else {
            match retry_after_ms {
                Some(ms) => millis_us(
                    if ms <= self.max_backoff_ms {
                        ms
                    } else {
                        self.max_backoff_ms
                    },
                ),
                None => 0,
            }
        }
    }

    /// The wait granted to a response that asked for `retry_after_ms`.
    pub fn backoff_us(&self, retry_after_ms: Option<u64>) -> (us: u64)
        ensures
            us == self.granted_us(retry_after_ms),
            us <= millis_us(self.max_backoff_ms),
    {
        if self.rate_limit_action != RlAction::Backoff {
            return 0;
        }
        match retry_after_ms {
            None => 0,
            Some(asked) => {
                let ms: u64 = if asked <= self.max_backoff_ms {
                    asked
                } else {
                    self.max_backoff_ms
                };
                if ms <= u64::MAX / 1000 {
                    ms * 1000
                } else {
                    u64::MAX
                }
            },
        }
    }
}

/// The signal after a rate-limit response to a request sent while `offered`
/// was the rate.
pub open spec fn signalled(
    before: RateLimitSignal,
    record_onset: bool,
    offered: u64,
    retry_after_ms: Option<u64>,
    granted_us: u64,
) -> RateLimitSignal {
    RateLimitSignal {
        first_429_mrps: if record_onset && before.first_429_mrps is None {
            Some(offered)
        } else {
            before.first_429_mrps
        },
        last_retry_after_ms: if retry_after_ms is Some {
            retry_after_ms
        } else {
            before.last_retry_after_ms
        },
        backoff_us_total: capped_sum(before.backoff_us_total, granted_us),
    }
}

impl Health {
    /// Nothing to report.
    pub open spec fn fine() -> Health {
        Health { sched_slip_us: 0, client_saturated: false, conn_errors: 0, timeouts: 0 }
    }

    pub fn new() -> (h: Self)
        ensures
            h == Health::fine(),
    {
        Health { sched_slip_us: 0, client_saturated: false, conn_errors: 0, timeouts: 0 }
    }

    /// A request went out `late_us` after it was due, where the schedule leaves
    /// `gap_us` to the next.
    pub open spec fn slipped(self, late_us: int, gap_us: int) -> Health {
        Health {
            sched_slip_us: if late_us > self.sched_slip_us {
                late_us as u64
            } else {
                self.sched_slip_us
            },
            client_saturated: self.client_saturated || late_us > 0 && late_us >= gap_us,
            ..self
        }
    }

    /// One more connection failed.
    pub open spec fn with_error(self) -> Health {
        Health { conn_errors: capped_sum(self.conn_errors, 1), ..self }
    }

    /// One more connection timed out.
    pub open spec fn with_timeout(self) -> Health {
        Health { timeouts: capped_sum(self.timeouts, 1), ..self }
    }
}

/// Whether the `seq`-th response is kept, the first being the 1st.
pub open spec fn sample_due(every_n: u32, seq: int) -> bool {
    every_n > 0 && seq % every_n as int == 0
}

/// A body cut to `cap` bytes; 0 keeps it whole.
pub open spec fn cut_body(body: Seq<u8>, cap: u32) -> Seq<u8> {
    if cap > 0 && body.len() > cap {
        body.take(cap as int)
    } else {
        body
    }
}

/// The sample of a response whose body is `body`.
pub open spec fn sample_of(mrps: u64, status: u16, corrected_us: u64, body: Seq<u8>, cap: u32)
    -> SampleView {
    SampleView {
        mrps_at_send: mrps,
        status,
        corrected_lat_us: corrected_us,
        body: text::lossy_text(cut_body(body, cap)),
        body_truncated: cap > 0 && body.len() > cap,
    }
}

impl LiveRun {
    /// Every response counted was recorded, under exactly one verdict, and
    /// sampling saw no more.
    pub open spec fn wf(self) -> bool {
        &&& self.histos.wf()
        &&& self.tally@.partitioned()
        &&& self.tally.total == self.histos.recorded()
        &&& self.sample_seq <= self.tally.total
    }

    pub fn new() -> (l: Self)
        ensures
            l.wf(),
            l.histos.ordered(),
            hist::hist_counts(l.histos.corrected) == Seq::new(
                hist::LATENCY_SLOTS as nat,
                |i: int| 0u64,
            ),
            hist::hist_counts(l.histos.uncorrected) == Seq::new(
                hist::LATENCY_SLOTS as nat,
                |i: int| 0u64,
            ),
            l.tally@ == Counts::zero(),
            l.sample_seq == 0,
            l.samples@.len() == 0,
            l.signal == (RateLimitSignal {
                first_429_mrps: None,
                last_retry_after_ms: None,
                backoff_us_total: 0,
            }),
            l.health == Health::fine(),
            !l.stopping,
    {
        LiveRun {
            histos: Histos::new(),
            tally: Tally::zero(),
            sample_seq: 0,
            samples: Vec::new(),
            signal: RateLimitSignal {
                first_429_mrps: None,
                last_retry_after_ms: None,
                backoff_us_total: 0,
            },
            health: Health::new(),
            stopping: false,
        }
    }

    /// The run once it shall end before its time.
    pub open spec fn stopped(self) -> LiveRun {
        LiveRun { stopping: true, ..self }
    }

    /// Ask every connection to finish what it is doing and close.
    pub fn stop(&mut self)
        ensures
            *final(self) == old(self).stopped(),
    {
        self.stopping = true;
    }
}

impl ConnResult {
    /// Every response is counted under exactly one verdict, and the connection
    /// failed or timed out at most once.
    pub open spec fn wf(self) -> bool {
        &&& self.tally@.partitioned()
        &&& self.conn_errors + self.timeouts <= 1
    }

    pub fn new() -> (r: Self)
        ensures
            r.wf(),
            r.tally@ == Counts::zero(),
            r.conn_errors == 0,
            r.timeouts == 0,
    {
        ConnResult { tally: Tally::zero(), conn_errors: 0, timeouts: 0 }
    }
}

impl Connection {
    /// A connection counts every completed response once and has advanced its
    /// schedule once for each, has failed at most once, and never sends a
    /// request before its slot.
    pub open spec fn wf(self) -> bool {
        &&& self.buf.wf()
        &&& self.sched.complete == self.result.tally.total
        &&& self.result.wf()
        &&& self.phase != Phase::Done ==> self.result.conn_errors == 0 && self.result.timeouts == 0
        &&& match self.phase {
            Phase::Waiting { due_us } => self.sched.intended() <= due_us,
            Phase::Writing { intended_us, sent_us } => intended_us == self.sched.intended()
                && intended_us <= sent_us,
            Phase::Reading { intended_us, sent_us, .. } => intended_us == self.sched.intended()
                && intended_us <= sent_us,
            _ => true,
        }
    }

    /// The event is one that the connection's last action can lead to.
    pub open spec fn expects(self, event: ConnEvent) -> bool {
        match self.phase {
            Phase::Pacing => event is Clock,
            Phase::Waiting { .. } => event is Clock,
            Phase::Writing { .. } => event is Written || event is WriteFailed,
            Phase::Reading { .. } => match event {
                ConnEvent::Received(bytes) => self.buf@.len() + bytes@.len()
                    <= response::READ_BUF_BYTES,
                ConnEvent::ReadFailed => true,
                ConnEvent::ReadTimedOut => true,
                _ => false,
            },
            Phase::Done => false,
        }
    }

    /// Another response can be counted, and the next slot is representable.
    pub open spec fn ready(self, live: LiveRun, now_us: u64) -> bool {
        &&& live.tally.total + 1 < u64::MAX
        &&& self.result.tally.total < u64::MAX
        &&& self.phase == Phase::Pacing ==> self.sched.schedulable(now_us as nat)
    }

    /// The step out of [`Phase::Pacing`] at `now_us`.
    pub open spec fn paced(
        self,
        rules: RunRules,
        stopping: bool,
        now_us: u64,
        after: Connection,
        action: ConnAction,
    ) -> bool {
        let wait = self.sched.wait(now_us as nat);
        let due_us = (now_us + wait) as u64;
        let sched = self.sched.after_wait(now_us as nat);
        if now_us >= rules.deadline_us || stopping {
            &&& after == (Connection { phase: Phase::Done, ..self })
            &&& action == ConnAction::Finish
        } else if wait > SPIN_THRESHOLD_US {
            &&& after == (Connection { sched, phase: Phase::Waiting { due_us }, ..self })
            &&& action == (ConnAction::Sleep { until_us: (due_us - SPIN_THRESHOLD_US) as u64 })
        } else if wait > 0 {
            &&& after == (Connection { sched, phase: Phase::Waiting { due_us }, ..self })
            &&& action == ConnAction::Yield
        } else {
            &&& after == (Connection {
                sched,
                phase: Phase::Writing {
                    intended_us: self.sched.intended() as u64,
                    sent_us: now_us,
                },
                ..self
            })
            &&& action == ConnAction::Send
        }
    }

    /// The step out of [`Phase::Waiting`] at `now_us`. A request that goes out
    /// after its time tells how far the worker itself has slipped.
    pub open spec fn awaited(
        self,
        rules: RunRules,
        live: LiveRun,
        due_us: u64,
        now_us: u64,
        after: Connection,
        live_after: LiveRun,
        action: ConnAction,
    ) -> bool {
        if live.stopping || due_us <= now_us && now_us >= rules.deadline_us {
            &&& after == (Connection { phase: Phase::Done, ..self })
            &&& live_after == live
            &&& action == ConnAction::Finish
        } else if now_us < due_us {
            &&& after == self
            &&& live_after == live
            &&& action == ConnAction::Yield
        } else {
            let n = self.sched.complete as nat;
            let gap_us = self.sched.slot_of(n + 1) - self.sched.slot_of(n);
            &&& live_after == (LiveRun {
                health: live.health.slipped(now_us - due_us, gap_us),
                ..live
            })
            &&& after == (Connection {
                phase: Phase::Writing {
                    intended_us: self.sched.intended() as u64,
                    sent_us: now_us,
                },
                ..self
            })
            &&& action == ConnAction::Send
        }
    }

    /// The connection failed.
    pub open spec fn broken(
        self,
        live: LiveRun,
        after: Connection,
        live_after: LiveRun,
        action: ConnAction,
    ) -> bool {
        &&& after == (Connection {
            result: ConnResult { conn_errors: 1, ..self.result },
            phase: Phase::Done,
            ..self
        })
        &&& live_after == (LiveRun { health: live.health.with_error(), ..live })
        &&& action == ConnAction::Finish
    }

    /// The response did not come in time.
    pub open spec fn timed_out(
        self,
        live: LiveRun,
        after: Connection,
        live_after: LiveRun,
        action: ConnAction,
    ) -> bool {
        &&& live_after == (LiveRun { health: live.health.with_timeout(), ..live })
        &&& after == (Connection {
            result: ConnResult { timeouts: 1, ..self.result },
            phase: Phase::Done,
            ..self
        })
        &&& action == ConnAction::Finish
    }

    /// The schedule after a response that was granted a wait of `granted_us`.
    pub open spec fn next_sched(self, granted_us: u64) -> ConnSched {
        let advanced = ConnSched { complete: (self.sched.complete + 1) as u64, ..self.sched };
        if granted_us > 0 {
            ConnSched {
                thread_start_us: capped_sum(advanced.thread_start_us, granted_us),
                caught_up: true,
                ..advanced
            }
        } else {
            advanced
        }
    }

    /// The step on the complete response `p`, received at `now_us`.
    pub open spec fn answered(
        self,
        rules: RunRules,
        live: LiveRun,
        p: response::ResponseView,
        now_us: u64,
        after: Connection,
        live_after: LiveRun,
        action: ConnAction,
    ) -> bool {
        let intended_us = self.phase->Reading_intended_us;
        let sent_us = self.phase->Reading_sent_us;
        let corrected = latency(now_us, intended_us);
        let uncorrected = latency(now_us, sent_us);
        let verdict = rules.assertions.verdict(
            p.status,
            corrected,
            p.content_length,
            p.content_type_lc,
        );
        let limited = verdict == Verdict::RateLimited;
        let granted_us: u64 = if limited {
            rules.granted_us(p.retry_after_ms)
        } else {
            0
        };
        let mrps = rules.offered.offered(sent_us as nat) as u64;
        let every_n = rules.assertions.sample_every_n;
        let seq = live.sample_seq + 1;
        let body = self.buf@.subrange(p.msg_len - p.content_length, p.msg_len as int);
        let abort = limited && rules.rate_limit_action == RlAction::Abort;
        // Both latencies are recorded.
        &&& hist::hist_counts(live_after.histos.corrected) == hist::bumped(
            hist::hist_counts(live.histos.corrected),
            hist::slot_of(hist::in_range(corrected) as nat) as int,
        )
        &&& hist::hist_counts(live_after.histos.uncorrected) == hist::bumped(
            hist::hist_counts(live.histos.uncorrected),
            hist::slot_of(hist::in_range(uncorrected) as nat) as int,
        )
        // The verdict is counted, for the connection and for the run.
        &&& live_after.tally@ == live.tally@.plus(Counts::one(verdict))
        &&& after.result.tally@ == self.result.tally@.plus(Counts::one(verdict))
        &&& after.result.conn_errors == self.result.conn_errors
        &&& after.result.timeouts == self.result.timeouts
        // Every n-th body is kept.
        &&& live_after.sample_seq == if every_n > 0 {
            seq
        } else {
            live.sample_seq as int
        }
        &&& sample_views(live_after.samples@) == if sample_due(every_n, seq) {
            sample_views(live.samples@).push(
                sample_of(
                    mrps,
                    p.status,
                    corrected,
                    body,
                    rules.assertions.max_sampled_body_bytes,
                ),
            )
        } else {
            sample_views(live.samples@)
        }
        // Rate limiting leaves its signal, and under its policy stops the run.
        &&& live_after.signal == if limited {
            signalled(live.signal, rules.record_onset, mrps, p.retry_after_ms, granted_us)
        } else {
            live.signal
        }
        &&& live_after.stopping == (live.stopping || abort)
        &&& live_after.health == live.health
        // The message is consumed and the schedule advances past it.
        &&& after.buf@ == self.buf@.skip(p.msg_len as int)
        &&& after.sched == self.next_sched(granted_us)
        &&& after.phase == if abort {
            Phase::Done
        } else {
            Phase::Pacing
        }
        &&& action == if abort {
            ConnAction::Finish
        } else if granted_us > 0 {
            ConnAction::Sleep { until_us: capped_sum(now_us, granted_us) }
        } else {
            ConnAction::Poll
        }
    }

    /// The step on what the buffer now holds.
    pub open spec fn examined(
        self,
        rules: RunRules,
        live: LiveRun,
        now_us: u64,
        after: Connection,
        live_after: LiveRun,
        action: ConnAction,
    ) -> bool {
        let found = response::outcome(
            response::response_head(self.buf@, response::MAX_HEADERS as nat),
            self.buf@.len(),
        );
        let deadline_us = self.phase->Reading_deadline_us;
        match response::read_step(found, self.buf@.len(), now_us as nat, deadline_us as nat) {
            response::ReadStepView::Done(p) => self.answered(
                rules,
                live,
                p,
                now_us,
                after,
                live_after,
                action,
            ),
            response::ReadStepView::Failed => self.broken(live, after, live_after, action),
            response::ReadStepView::TimedOut => self.timed_out(live, after, live_after, action),
            response::ReadStepView::Read { room, within_us } => {
                &&& after == self
                &&& live_after == live
                &&& action == (ConnAction::Receive {
                    room: room as usize,
                    within_us: within_us as u64,
                })
            },
        }
    }

    /// A connection with the schedule `sched`, about to send its first request.
    pub fn new(sched: ConnSched) -> (c: Self)
        requires
            sched.complete == 0,
        ensures
            c.wf(),
            c.sched == sched,
            c.buf@ == Seq::<u8>::empty(),
            c.result.tally@ == Counts::zero(),
            c.result.conn_errors == 0,
            c.result.timeouts == 0,
            c.phase == Phase::Pacing,
    {
        Connection { sched, buf: ReadBuffer::new(), result: ConnResult::new(), phase: Phase::Pacing }
    }

    /// The connection could not be opened.
    pub open spec fn never_opened(
        self,
        sched: ConnSched,
        live: LiveRun,
        live_after: LiveRun,
    ) -> bool {
        &&& live_after == (LiveRun { health: live.health.with_error(), ..live })
        &&& self.sched == sched
        &&& self.buf@ == Seq::<u8>::empty()
        &&& self.result.tally@ == Counts::zero()
        &&& self.result.conn_errors == 1
        &&& self.result.timeouts == 0
        &&& self.phase == Phase::Done
    }

    /// A connection that could not be opened.
    pub fn unopened(sched: ConnSched, live: &mut LiveRun) -> (c: Self)
        requires
            sched.complete == 0,
        ensures
            c.wf(),
            c.never_opened(sched, *old(live), *final(live)),
    {
        let mut c: Connection = Connection::new(sched);
        c.result.conn_errors = 1;
        c.phase = Phase::Done;
        live.health.conn_errors = live.health.conn_errors.saturating_add(1);
        c
    }

    /// Whether another response can be counted and the next slot is
    /// representable.
    pub fn is_ready(&self, live: &LiveRun, now_us: u64) -> (b: bool)
        ensures
            b == self.ready(*live, now_us),
    {
        live.tally.total < u64::MAX - 1 && self.result.tally.total < u64::MAX && (self.phase
            != Phase::Pacing || self.sched.is_schedulable(now_us))
    }

    fn pace(&mut self, rules: &RunRules, stopping: bool, now_us: u64) -> (action: ConnAction)
        requires
            old(self).wf(),
            old(self).phase == Phase::Pacing,
            old(self).sched.schedulable(now_us as nat),
        ensures
            old(self).paced(*rules, stopping, now_us, *final(self), action),
            final(self).wf(),
    {
        if now_us >= rules.deadline_us || stopping {
            self.phase = Phase::Done;
            return ConnAction::Finish;
        }
        let intended_us: u64 = self.sched.intended_send_time();
        let wait_us: u64 = self.sched.usec_to_next_send(now_us);
        if wait_us > 0 {
            let due_us: u64 = now_us + wait_us;
            self.phase = Phase::Waiting { due_us };
            if wait_us > SPIN_THRESHOLD_US {
                ConnAction::Sleep { until_us: due_us - SPIN_THRESHOLD_US }
            } else {
                ConnAction::Yield
            }
        } else {
            self.phase = Phase::Writing { intended_us, sent_us: now_us };
            ConnAction::Send
        }
    }

    fn await_slot(&mut self, rules: &RunRules, live: &mut LiveRun, due_us: u64, now_us: u64)
        -> (action: ConnAction)
        requires
            old(self).wf(),
            old(self).phase == (Phase::Waiting { due_us }),
            old(self).ready(*old(live), now_us),
        ensures
            old(self).awaited(
                *rules,
                *old(live),
                due_us,
                now_us,
                *final(self),
                *final(live),
                action,
            ),
            final(self).wf(),
    {
        if live.stopping || (due_us <= now_us && now_us >= rules.deadline_us) {
            self.phase = Phase::Done;
            return ConnAction::Finish;
        }
        if now_us < due_us {
            return ConnAction::Yield;
        }
        let intended_us: u64 = self.sched.intended_send_time();
        let here: u64 = self.sched.schedule.offset_us(self.sched.complete);
        let next: u64 = self.sched.schedule.offset_us(self.sched.complete + 1);
        let late_us: u64 = now_us - due_us;
        if late_us > live.health.sched_slip_us {
            live.health.sched_slip_us = late_us;
        }
        if late_us > 0 && late_us >= next.saturating_sub(here) {
            live.health.client_saturated = true;
        }
        self.phase = Phase::Writing { intended_us, sent_us: now_us };
        ConnAction::Send
    }

    fn fail(&mut self, live: &mut LiveRun) -> (action: ConnAction)
        requires
            old(self).wf(),
            old(self).phase != Phase::Done,
        ensures
            old(self).broken(*old(live), *final(self), *final(live), action),
            final(self).wf(),
    {
        live.health.conn_errors = live.health.conn_errors.saturating_add(1);
        self.result.conn_errors = 1;
        self.phase = Phase::Done;
        ConnAction::Finish
    }

    fn give_up(&mut self, live: &mut LiveRun) -> (action: ConnAction)
        requires
            old(self).wf(),
            old(self).phase != Phase::Done,
        ensures
            old(self).timed_out(*old(live), *final(self), *final(live), action),
            final(self).wf(),
    {
        live.health.timeouts = live.health.timeouts.saturating_add(1);
        self.result.timeouts = 1;
        self.phase = Phase::Done;
        ConnAction::Finish
    }

    /// Take in the complete response `p` at the start of the buffer, received at
    /// `now_us`.
    pub fn respond(&mut self, rules: &RunRules, live: &mut LiveRun, p: &ParsedResponse, now_us: u64)
        -> (action: ConnAction)
        requires
            old(self).wf(),
            old(self).phase is Reading,
            old(live).wf(),
            old(self).ready(*old(live), now_us),
            p.msg_len <= old(self).buf@.len(),
            p.content_length <= p.msg_len,
        ensures
            old(self).answered(*rules, *old(live), p@, now_us, *final(self), *final(live), action),
            final(self).wf(),
            final(live).wf(),
            old(live).histos.ordered() ==> final(live).histos.ordered(),
    {
        let (intended_us, sent_us): (u64, u64) = match self.phase {
            Phase::Reading { intended_us, sent_us, .. } => (intended_us, sent_us),
            _ => (0, 0),
        };
        let corrected: u64 = elapsed(now_us, intended_us);
        let uncorrected: u64 = elapsed(now_us, sent_us);
        live.histos.record(corrected, uncorrected);
        let mrps: u64 = rules.offered.offered_mrps(sent_us);
        if rules.assertions.sample_every_n > 0 {
            live.sample_seq = live.sample_seq + 1;
            if live.sample_seq % rules.assertions.sample_every_n as u64 == 0 {
                let body: &[u8] = self.buf.slice(
                    p.msg_len - p.content_length as usize,
                    p.msg_len,
                );
                let sample: SampledResponse = keep_sample(
                    mrps,
                    p.status,
                    corrected,
                    body,
                    rules.assertions.max_sampled_body_bytes,
                );
                let ghost before = sample_views(live.samples@);
                live.samples.push(sample);
                assert(sample_views(live.samples@) =~= before.push(sample@));
            }
        }
        let content_type: Option<&str> = match &p.content_type_lc {
            Some(t) => Some(t.as_str()),
            None => None,
        };
        let verdict: Verdict = rules.assertions.classify(
            p.status,
            corrected,
            p.content_length,
            content_type,
        );
        live.tally.record(verdict);
        self.result.tally.record(verdict);
        self.buf.consume(p.msg_len);
        self.sched.advance();
        if verdict != Verdict::RateLimited {
            self.phase = Phase::Pacing;
            return ConnAction::Poll;
        }
        let granted_us: u64 = rules.backoff_us(p.retry_after_ms);
        live.signal.note(rules.record_onset, mrps, p.retry_after_ms, granted_us);
        if rules.rate_limit_action == RlAction::Abort {
            live.stopping = true;
            self.phase = Phase::Done;
            return ConnAction::Finish;
        }
        self.phase = Phase::Pacing;
        if granted_us > 0 {
            self.sched.defer_origin(granted_us);
            ConnAction::Sleep { until_us: now_us.saturating_add(granted_us) }
        } else {
            ConnAction::Poll
        }
    }

    fn examine(&mut self, rules: &RunRules, live: &mut LiveRun, now_us: u64) -> (action: ConnAction)
        requires
            old(self).wf(),
            old(self).phase is Reading,
            old(live).wf(),
            old(self).ready(*old(live), now_us),
        ensures
            old(self).examined(*rules, *old(live), now_us, *final(self), *final(live), action),
            final(self).wf(),
            final(live).wf(),
            old(live).histos.ordered() ==> final(live).histos.ordered(),
    {
        let deadline_us: u64 = match self.phase {
            Phase::Reading { deadline_us, .. } => deadline_us,
            _ => 0,
        };
        match self.buf.next_read(now_us, deadline_us) {
            ReadStep::Done(p) => self.respond(rules, live, &p, now_us),
            ReadStep::Failed => self.fail(live),
            ReadStep::TimedOut => self.give_up(live),
            ReadStep::Read { room, within_us } => ConnAction::Receive { room, within_us },
        }
    }

    /// The connection while it waits for the response to the request that just
    /// went out at `now_us`.
    pub open spec fn reading(self, rules: RunRules, now_us: u64) -> Connection {
        Connection {
            phase: Phase::Reading {
                intended_us: self.phase->Writing_intended_us,
                sent_us: self.phase->Writing_sent_us,
                deadline_us: capped_sum(now_us, rules.timeout_us),
            },
            ..self
        }
    }

    /// The connection's next step: what it does on `event` at `now_us`.
    pub open spec fn stepped(
        self,
        rules: RunRules,
        live: LiveRun,
        now_us: u64,
        event: ConnEvent,
        after: Connection,
        live_after: LiveRun,
        action: ConnAction,
    ) -> bool {
        match (self.phase, event) {
            (Phase::Pacing, ConnEvent::Clock) => {
                &&& self.paced(rules, live.stopping, now_us, after, action)
                &&& live_after == live
            },
            (Phase::Waiting { due_us }, ConnEvent::Clock) => self.awaited(
                rules,
                live,
                due_us,
                now_us,
                after,
                live_after,
                action,
            ),
            (Phase::Writing { .. }, ConnEvent::Written) => self.reading(rules, now_us).examined(
                rules,
                live,
                now_us,
                after,
                live_after,
                action,
            ),
            (Phase::Reading { .. }, ConnEvent::Received(bytes)) => if bytes@.len() == 0 {
                self.broken(live, after, live_after, action)
            } else {
                exists|filled: Connection|
                    #![trigger filled.buf]
                    {
                        &&& filled.buf@ == self.buf@ + bytes@
                        &&& filled.sched == self.sched
                        &&& filled.result == self.result
                        &&& filled.phase == self.phase
                        &&& filled.examined(rules, live, now_us, after, live_after, action)
                    }
            },
            (Phase::Reading { .. }, ConnEvent::ReadTimedOut) => self.timed_out(
                live,
                after,
                live_after,
                action,
            ),
            _ => self.broken(live, after, live_after, action),
        }
    }

    /// Take the next step.
    pub fn step(&mut self, rules: &RunRules, live: &mut LiveRun, now_us: u64, event: ConnEvent)
        -> (action: ConnAction)
        requires
            old(self).wf(),
            old(live).wf(),
            old(self).expects(event),
            old(self).ready(*old(live), now_us),
        ensures
            old(self).stepped(
                *rules,
                *old(live),
                now_us,
                event,
                *final(self),
                *final(live),
                action,
            ),
            final(self).wf(),
            final(live).wf(),
            old(live).histos.ordered() ==> final(live).histos.ordered(),
    {
        match (self.phase, event) {
            (Phase::Pacing, ConnEvent::Clock) => self.pace(rules, live.stopping, now_us),
            (Phase::Waiting { due_us }, ConnEvent::Clock) => self.await_slot(
                rules,
                live,
                due_us,
                now_us,
            ),
            (Phase::Writing { intended_us, sent_us }, ConnEvent::Written) => {
                self.phase = Phase::Reading {
                    intended_us,
                    sent_us,
                    deadline_us: now_us.saturating_add(rules.timeout_us),
                };
                self.examine(rules, live, now_us)
            },
            (Phase::Reading { .. }, ConnEvent::Received(bytes)) => {
                if bytes.len() == 0 {
                    return self.fail(live);
                }
                self.buf.fill(bytes.as_slice());
                let ghost filled = *self;
                let action: ConnAction = self.examine(rules, live, now_us);
                assert(filled.buf@ == old(self).buf@ + bytes@);
                action
            },
            (Phase::Reading { .. }, ConnEvent::ReadTimedOut) => self.give_up(live),
            _ => self.fail(live),
        }
    }
}

/// Latency from `from_us` to `now_us`, at least one microsecond.
fn elapsed(now_us: u64, from_us: u64) -> (us: u64)
    ensures
        us == latency(now_us, from_us),
{
    if now_us > from_us {
        now_us - from_us
    } else {
        1
    }
}

/// The sample of a response whose body is `body`.
fn keep_sample(mrps: u64, status: u16, corrected_us: u64, body: &[u8], cap: u32) -> (s:
    SampledResponse)
    ensures
        s@ == sample_of(mrps, status, corrected_us, body@, cap),
{
    let truncated: bool = cap > 0 && body.len() > cap as usize;
    let kept: &[u8] = if truncated {
        vstd::slice::slice_subrange(body, 0, cap as usize)
    } else {
        body
    };
    assert(kept@ =~= cut_body(body@, cap));
    SampledResponse {
        mrps_at_send: mrps,
        status,
        corrected_lat_us: corrected_us,
        body: text::text_lossy(kept),
        body_truncated: truncated,
    }
}

impl RateLimitSignal {
    /// Note a rate-limit response.
    pub fn note(
        &mut self,
        record_onset: bool,
        offered: u64,
        retry_after_ms: Option<u64>,
        granted_us: u64,
    )
        ensures
            *final(self) == signalled(
                *old(self),
                record_onset,
                offered,
                retry_after_ms,
                granted_us,
            ),
    {
        if record_onset && self.first_429_mrps.is_none() {
            self.first_429_mrps = Some(offered);
        }
        if retry_after_ms.is_some() {
            self.last_retry_after_ms = retry_after_ms;
        }
        self.backoff_us_total = self.backoff_us_total.saturating_add(granted_us);
    }
}

/// No request is sent before its slot, so the corrected latency of a response is
/// never below the uncorrected one.
pub proof fn law_corrected_is_at_least_uncorrected(c: Connection, now_us: u64)
    requires
        c.wf(),
        c.phase is Reading,
    ensures
        latency(now_us, c.phase->Reading_intended_us) >= latency(
            now_us,
            c.phase->Reading_sent_us,
        ),
{
}

/// All waits granted together are at most the cap for every rate-limit response
/// seen.
pub open spec fn backoff_bounded(live: LiveRun, rules: RunRules) -> bool {
    live.signal.backoff_us_total <= live.tally.rate_limited * millis_us(rules.max_backoff_ms)
}

/// Every step keeps the time spent backing off within the cap for each
/// rate-limit response.
pub proof fn law_backoff_stays_within_the_cap(
    c: Connection,
    rules: RunRules,
    live: LiveRun,
    now_us: u64,
    event: ConnEvent,
    after: Connection,
    live_after: LiveRun,
    action: ConnAction,
)
    requires
        backoff_bounded(live, rules),
        c.stepped(rules, live, now_us, event, after, live_after, action),
    ensures
        backoff_bounded(live_after, rules),
{
    let cap = millis_us(rules.max_backoff_ms) as int;
    let n = live.tally.rate_limited as int;
    assert((n + 1) * cap == n * cap + cap) by (nonlinear_arith);
    assert(n * cap >= 0) by (nonlinear_arith)
        requires
            n >= 0,
            cap >= 0,
    ;
    assert(live_after.tally.rate_limited == live_after.tally@.rate_limited);
}

/// The run's own counts move in step with its connections': what a step adds to
/// one it adds to the other, responses and failures alike.
pub proof fn law_run_and_connections_count_alike(
    c: Connection,
    rules: RunRules,
    live: LiveRun,
    now_us: u64,
    event: ConnEvent,
    after: Connection,
    live_after: LiveRun,
    action: ConnAction,
)
    requires
        c.wf(),
        c.expects(event),
        c.stepped(rules, live, now_us, event, after, live_after, action),
    ensures
        live_after.tally@.plus(c.result.tally@) == live.tally@.plus(after.result.tally@),
        after.result.conn_errors >= c.result.conn_errors,
        after.result.timeouts >= c.result.timeouts,
        live_after.health.conn_errors == capped_sum(
            live.health.conn_errors,
            (after.result.conn_errors - c.result.conn_errors) as u64,
        ),
        live_after.health.timeouts == capped_sum(
            live.health.timeouts,
            (after.result.timeouts - c.result.timeouts) as u64,
        ),
{
}

/// A connection asked to stop, or past the run's end, sends nothing more; one
/// asked to stop closes at its next look at the clock, even in the middle of a
/// wait.
pub proof fn law_stopping_sends_nothing_more(
    c: Connection,
    rules: RunRules,
    live: LiveRun,
    now_us: u64,
    event: ConnEvent,
    after: Connection,
    live_after: LiveRun,
    action: ConnAction,
)
    requires
        live.stopping || now_us >= rules.deadline_us,
        c.stepped(rules, live, now_us, event, after, live_after, action),
    ensures
        action != ConnAction::Send,
        c.phase == Phase::Pacing && event is Clock ==> action == ConnAction::Finish,
        live.stopping && event is Clock ==> action == ConnAction::Finish,
        live.stopping ==> live_after.stopping,
{
}

/// Under the aborting policy the first rate-limit response ends the run.
pub proof fn law_abort_policy_stops_the_run(
    c: Connection,
    rules: RunRules,
    live: LiveRun,
    p: response::ResponseView,
    now_us: u64,
    after: Connection,
    live_after: LiveRun,
    action: ConnAction,
)
    requires
        c.answered(rules, live, p, now_us, after, live_after, action),
        rules.rate_limit_action == RlAction::Abort,
        p.status == worker::TOO_MANY_REQUESTS,
    ensures
        live_after.stopping,
        action == ConnAction::Finish,
{
}

/// Latency is measured from the slot: where the run's corrected histogram holds
/// `from_slots` and the uncorrected one `from_sends`, a response that comes in at
/// `now_us` adds the time since its request's slot to the first and the time since
/// its request was sent to the second.
pub proof fn law_latency_is_measured_from_the_slot(
    c: Connection,
    rules: RunRules,
    live: LiveRun,
    p: response::ResponseView,
    now_us: u64,
    after: Connection,
    live_after: LiveRun,
    action: ConnAction,
    from_slots: Seq<u64>,
    from_sends: Seq<u64>,
)
    requires
        c.wf(),
        c.phase is Reading,
        c.phase->Reading_sent_us < now_us,
        live.wf(),
        c.answered(rules, live, p, now_us, after, live_after, action),
        hist::holds(hist::hist_counts(live.histos.corrected), from_slots),
        hist::holds(hist::hist_counts(live.histos.uncorrected), from_sends),
    ensures
        hist::holds(
            hist::hist_counts(live_after.histos.corrected),
            from_slots.push((now_us - c.sched.slot_of(c.sched.complete as nat)) as u64),
        ),
        hist::holds(
            hist::hist_counts(live_after.histos.uncorrected),
            from_sends.push((now_us - c.phase->Reading_sent_us) as u64),
        ),
{
    hist::law_recording_adds_the_value(
        hist::hist_counts(live.histos.corrected),
        from_slots,
        (now_us - c.sched.slot_of(c.sched.complete as nat)) as u64,
    );
    hist::law_recording_adds_the_value(
        hist::hist_counts(live.histos.uncorrected),
        from_sends,
        (now_us - c.phase->Reading_sent_us) as u64,
    );
}

/// A response that comes in more than the limit after its request's slot fails for
/// its latency, however late the request was sent: with an expected status other
/// than 429 it adds one to the latency failures of the run and of the connection, and
/// to no other verdict.
pub proof fn law_a_stall_fails_every_request_it_delays(
    c: Connection,
    rules: RunRules,
    live: LiveRun,
    p: response::ResponseView,
    now_us: u64,
    after: Connection,
    live_after: LiveRun,
    action: ConnAction,
    max_us: u64,
)
    requires
        c.wf(),
        c.phase is Reading,
        c.answered(rules, live, p, now_us, after, live_after, action),
        p.status != 429,
        rules.assertions.expected_status@.len() == 0 ==> 200 <= p.status <= 299,
        rules.assertions.expected_status@.len() > 0 ==> rules.assertions.expected_status@.contains(
            p.status,
        ),
        rules.assertions.max_latency_us == Some(max_us),
        now_us - c.sched.slot_of(c.sched.complete as nat) > max_us,
    ensures
        live_after.tally.fail_latency == live.tally.fail_latency + 1,
        live_after.tally.total == live.tally.total + 1,
        live_after.tally.pass == live.tally.pass,
        live_after.tally.fail_status == live.tally.fail_status,
        live_after.tally.fail_size == live.tally.fail_size,
        live_after.tally.fail_content_type == live.tally.fail_content_type,
        live_after.tally.rate_limited == live.tally.rate_limited,
        after.result.tally.fail_latency == c.result.tally.fail_latency + 1,
        after.result.tally.total == c.result.tally.total + 1,
        after.result.tally.pass == c.result.tally.pass,
{
    lemma_counted(c, live, after, live_after);
}

/// A response that comes in within the limit of its request's slot does not fail for
/// its latency; without a limit none does.
pub proof fn law_a_response_in_time_fails_no_latency(
    c: Connection,
    rules: RunRules,
    live: LiveRun,
    p: response::ResponseView,
    now_us: u64,
    after: Connection,
    live_after: LiveRun,
    action: ConnAction,
)
    requires
        c.wf(),
        c.phase is Reading,
        c.answered(rules, live, p, now_us, after, live_after, action),
        rules.assertions.max_latency_us matches Some(max_us) ==> max_us >= 1 && now_us
            - c.sched.slot_of(c.sched.complete as nat) <= max_us,
    ensures
        live_after.tally.fail_latency == live.tally.fail_latency,
        after.result.tally.fail_latency == c.result.tally.fail_latency,
{
    lemma_counted(c, live, after, live_after);
}

proof fn lemma_counted(c: Connection, live: LiveRun, after: Connection, live_after: LiveRun)
    ensures
        live.tally@.fail_latency == live.tally.fail_latency,
        live.tally@.total == live.tally.total,
        live.tally@.rate_limited == live.tally.rate_limited,
        live_after.tally@.fail_latency == live_after.tally.fail_latency,
        live_after.tally@.total == live_after.tally.total,
        live_after.tally@.rate_limited == live_after.tally.rate_limited,
        c.result.tally@.fail_latency == c.result.tally.fail_latency,
        after.result.tally@.fail_latency == after.result.tally.fail_latency,
{
}

/// The other verdicts, in their order: a 429 counts as rate limited; any other status
/// that is not expected fails for its status; a response in time with an expected
/// status fails for a body outside the limits; one that also meets those fails for a
/// content type that does not begin as wanted, and passes otherwise. Each adds one to its own count, of the run and
/// of the connection alike.
pub proof fn law_a_response_counts_under_its_verdict(
    c: Connection,
    rules: RunRules,
    live: LiveRun,
    p: response::ResponseView,
    now_us: u64,
    after: Connection,
    live_after: LiveRun,
    action: ConnAction,
)
    requires
        c.wf(),
        c.phase is Reading,
        c.answered(rules, live, p, now_us, after, live_after, action),
    ensures
        ({
            let a = rules.assertions;
            let expected = a.expected_status@;
            let known = if expected.len() == 0 {
                200 <= p.status <= 299
            } else {
                expected.contains(p.status)
            };
            let in_time = a.max_latency_us matches Some(max) ==> now_us - c.sched.slot_of(
                c.sched.complete as nat,
            ) <= max && max >= 1;
            let sized = (a.min_body_bytes matches Some(min) ==> p.content_length >= min) && (
            a.max_body_bytes matches Some(max) ==> p.content_length <= max);
            &&& live_after.tally.total == live.tally.total + 1
            &&& live_after.tally.rate_limited == live.tally.rate_limited + (if p.status == 429 {
                1int
            } else {
                0
            })
            &&& after.result.tally.rate_limited == c.result.tally.rate_limited + (if p.status
                == 429 {
                1int
            } else {
                0
            })
            &&& live_after.tally.fail_status == live.tally.fail_status + (if p.status != 429
                && !known {
                1int
            } else {
                0
            })
            &&& after.result.tally.fail_status == c.result.tally.fail_status + (if p.status != 429
                && !known {
                1int
            } else {
                0
            })
            &&& p.status != 429 && known && in_time ==> {
                &&& live_after.tally.fail_size == live.tally.fail_size + (if sized {
                    0int
                } else {
                    1
                })
                &&& sized && a.content_type_lc_prefix is None ==> {
                    &&& live_after.tally.pass == live.tally.pass + 1
                    &&& after.result.tally.pass == c.result.tally.pass + 1
                }
                &&& sized && a.content_type_lc_prefix is Some && p.content_type_lc is None ==> {
                    &&& live_after.tally.fail_content_type == live.tally.fail_content_type + 1
                    &&& live_after.tally.pass == live.tally.pass
                }
                &&& sized && a.content_type_lc_prefix is Some && p.content_type_lc is Some ==> {
                    let fits = a.content_type_lc_prefix->0@.is_prefix_of(p.content_type_lc->0);
                    &&& fits ==> live_after.tally.pass == live.tally.pass + 1
                    &&& !fits ==> live_after.tally.fail_content_type
                        == live.tally.fail_content_type + 1
                }
            }
        }),
{
    lemma_counted(c, live, after, live_after);
    assert(live_after.tally@.pass == live_after.tally.pass);
    assert(live_after.tally@.fail_status == live_after.tally.fail_status);
    assert(live_after.tally@.fail_size == live_after.tally.fail_size);
    assert(live_after.tally@.fail_content_type == live_after.tally.fail_content_type);
    assert(after.result.tally@.pass == after.result.tally.pass);
    assert(after.result.tally@.fail_status == after.result.tally.fail_status);
    assert(after.result.tally@.rate_limited == after.result.tally.rate_limited);
}

/// What a Retry-After is granted. Under the policy that backs off, a wait up to the
/// cap is granted to the millisecond, and a longer one as the cap; in no case is more
/// granted than was asked for or than the cap. Nothing is granted where nothing was
/// asked for, and nothing under any other policy.
pub proof fn law_a_wait_is_granted_as_asked(rules: RunRules, ms: u64)
    ensures
        rules.rate_limit_action == RlAction::Backoff && ms <= rules.max_backoff_ms && ms * 1000
            <= u64::MAX ==> rules.granted_us(Some(ms)) == ms * 1000,
        rules.rate_limit_action == RlAction::Backoff && ms > rules.max_backoff_ms
            && rules.max_backoff_ms * 1000 <= u64::MAX ==> rules.granted_us(Some(ms))
            == rules.max_backoff_ms * 1000,
        rules.rate_limit_action == RlAction::Backoff && ms * 1000 > u64::MAX
            && rules.max_backoff_ms * 1000 > u64::MAX ==> rules.granted_us(Some(ms)) == u64::MAX,
        rules.granted_us(Some(ms)) <= ms * 1000,
        rules.granted_us(Some(ms)) <= rules.max_backoff_ms * 1000,
        rules.granted_us(None) == 0,
        rules.rate_limit_action != RlAction::Backoff ==> rules.granted_us(Some(ms)) == 0,
{
}

/// Asking for longer is never granted less.
pub proof fn law_a_longer_wait_is_granted_no_less(rules: RunRules, less: u64, more: u64)
    requires
        less <= more,
    ensures
        rules.granted_us(Some(less)) <= rules.granted_us(Some(more)),
{
}

/// Backing off is a pause of the schedule. A rate-limit response that asks for `ms`
/// milliseconds, no more than the cap, has the connection sleep exactly that long
/// and then go on as if that time had not passed: every slot moves by just as much,
/// and the total of the waits grows by it.
pub proof fn law_backing_off_pauses_the_schedule(
    c: Connection,
    rules: RunRules,
    live: LiveRun,
    p: response::ResponseView,
    now_us: u64,
    after: Connection,
    live_after: LiveRun,
    action: ConnAction,
    ms: u64,
    n: nat,
)
    requires
        c.answered(rules, live, p, now_us, after, live_after, action),
        rules.rate_limit_action == RlAction::Backoff,
        p.status == 429,
        p.retry_after_ms == Some(ms),
        0 < ms <= rules.max_backoff_ms,
        now_us + ms * 1000 <= u64::MAX,
        c.sched.thread_start_us + ms * 1000 <= u64::MAX,
        live.signal.backoff_us_total + ms * 1000 <= u64::MAX,
        c.sched.complete < u64::MAX,
    ensures
        action == (ConnAction::Sleep { until_us: (now_us + ms * 1000) as u64 }),
        after.phase == Phase::Pacing,
        after.sched.slot_of(n) == c.sched.slot_of(n) + ms * 1000,
        after.sched.complete == c.sched.complete + 1,
        after.sched.caught_up,
        live_after.signal.backoff_us_total == live.signal.backoff_us_total + ms * 1000,
        live_after.signal.last_retry_after_ms == Some(ms),
        live_after.stopping == live.stopping,
{
}

/// A response that is granted no wait moves no slot: the connection goes on to the
/// next request of the same schedule at once.
pub proof fn law_a_response_without_a_wait_moves_no_slot(
    c: Connection,
    rules: RunRules,
    live: LiveRun,
    p: response::ResponseView,
    now_us: u64,
    after: Connection,
    live_after: LiveRun,
    action: ConnAction,
    n: nat,
)
    requires
        c.answered(rules, live, p, now_us, after, live_after, action),
        p.status != 429 || p.retry_after_ms is None || rules.rate_limit_action
            == RlAction::Continue,
        c.sched.complete < u64::MAX,
        p.status == 429 ==> rules.rate_limit_action != RlAction::Abort,
    ensures
        after.sched.slot_of(n) == c.sched.slot_of(n),
        after.sched.complete == c.sched.complete + 1,
        after.sched.caught_up == c.sched.caught_up,
        after.sched.catch_up_start_time == c.sched.catch_up_start_time,
        after.sched.complete_at_catch_up_start == c.sched.complete_at_catch_up_start,
        after.sched.catch_up_us == c.sched.catch_up_us,
        after.phase == Phase::Pacing,
        action == ConnAction::Poll,
        live_after.signal.backoff_us_total == live.signal.backoff_us_total,
        live_after.stopping == live.stopping,
{
}

/// What rate limiting leaves behind. The onset is the rate offered when the first
/// rate-limited request was sent, noted once where it is wanted and never changed;
/// the advertised wait is the latest one; and no response but a 429 touches either.
pub proof fn law_the_onset_is_noted_once(
    c: Connection,
    rules: RunRules,
    live: LiveRun,
    p: response::ResponseView,
    now_us: u64,
    after: Connection,
    live_after: LiveRun,
    action: ConnAction,
)
    requires
        c.answered(rules, live, p, now_us, after, live_after, action),
        c.phase is Reading,
    ensures
        live.signal.first_429_mrps is Some ==> live_after.signal.first_429_mrps
            == live.signal.first_429_mrps,
        live.signal.first_429_mrps is None && p.status == 429 && rules.record_onset
            ==> live_after.signal.first_429_mrps == Some(
            rules.offered.offered(c.phase->Reading_sent_us as nat) as u64,
        ),
        !rules.record_onset ==> live_after.signal.first_429_mrps == live.signal.first_429_mrps,
        p.status == 429 && p.retry_after_ms is Some ==> live_after.signal.last_retry_after_ms
            == p.retry_after_ms,
        p.status == 429 && p.retry_after_ms is None ==> live_after.signal.last_retry_after_ms
            == live.signal.last_retry_after_ms,
        p.status != 429 ==> live_after.signal == live.signal,
        p.status != 429 ==> live_after.stopping == live.stopping,
        rules.rate_limit_action != RlAction::Abort ==> live_after.stopping == live.stopping,
{
}

/// Every `n`-th response is kept, no other, and none where sampling is off. What is
/// kept is the last `content_length` bytes of the message, cut to the limit where
/// one is set and marked as cut if it was longer, with the response's status, the
/// time since its slot and the rate offered when it was sent.
pub proof fn law_every_nth_response_is_kept(
    c: Connection,
    rules: RunRules,
    live: LiveRun,
    p: response::ResponseView,
    now_us: u64,
    after: Connection,
    live_after: LiveRun,
    action: ConnAction,
)
    requires
        c.wf(),
        c.phase is Reading,
        c.phase->Reading_intended_us < now_us,
        c.answered(rules, live, p, now_us, after, live_after, action),
        p.content_length <= p.msg_len <= c.buf@.len(),
    ensures
        ({
            let n = rules.assertions.sample_every_n;
            let cap = rules.assertions.max_sampled_body_bytes as int;
            let body = c.buf@.take(p.msg_len as int).skip(p.msg_len - p.content_length);
            let kept = sample_views(live_after.samples@);
            let before = sample_views(live.samples@);
            &&& n == 0 ==> kept == before && live_after.sample_seq == live.sample_seq
            &&& n > 0 ==> live_after.sample_seq == live.sample_seq + 1
            &&& n > 0 && live_after.sample_seq % n as u64 != 0 ==> kept == before
            &&& n > 0 && live_after.sample_seq % n as u64 == 0 ==> {
                &&& kept.len() == before.len() + 1
                &&& forall|i: int| 0 <= i < before.len() ==> kept[i] == before[i]
                &&& kept.last().status == p.status
                &&& kept.last().corrected_lat_us == now_us - c.sched.slot_of(
                    c.sched.complete as nat,
                )
                &&& kept.last().mrps_at_send == rules.offered.offered(
                    c.phase->Reading_sent_us as nat,
                ) as u64
                &&& cap == 0 || p.content_length <= cap ==> {
                    &&& kept.last().body == text::lossy_text(body)
                    &&& !kept.last().body_truncated
                }
                &&& 0 < cap < p.content_length ==> {
                    &&& kept.last().body == text::lossy_text(body.take(cap))
                    &&& kept.last().body_truncated
                }
            }
        }),
{
    assert(c.buf@.take(p.msg_len as int).skip(p.msg_len - p.content_length) =~= c.buf@.subrange(
        p.msg_len - p.content_length,
        p.msg_len as int,
    ));
}

/// A response takes its own bytes and leaves the rest for the next one.
pub proof fn law_a_response_takes_its_own_bytes(
    c: Connection,
    rules: RunRules,
    live: LiveRun,
    p: response::ResponseView,
    now_us: u64,
    after: Connection,
    live_after: LiveRun,
    action: ConnAction,
)
    requires
        c.answered(rules, live, p, now_us, after, live_after, action),
        p.msg_len <= c.buf@.len(),
    ensures
        c.buf@ == c.buf@.take(p.msg_len as int) + after.buf@,
        after.result.conn_errors == c.result.conn_errors,
        after.result.timeouts == c.result.timeouts,
        live_after.health == live.health,
{
    assert(c.buf@ =~= c.buf@.take(p.msg_len as int) + c.buf@.skip(p.msg_len as int));
}

/// Requests go out on time and are booked under their own slot. A request is sent at
/// the time it is sent at, never before its slot, never once the run has ended or
/// been stopped, and what its latency will be measured from is the slot of the
/// request that all answered ones precede.
pub proof fn law_a_request_is_booked_under_its_slot(
    c: Connection,
    rules: RunRules,
    live: LiveRun,
    now_us: u64,
    event: ConnEvent,
    after: Connection,
    live_after: LiveRun,
    action: ConnAction,
)
    requires
        c.wf(),
        c.stepped(rules, live, now_us, event, after, live_after, action),
        action == ConnAction::Send,
    ensures
        event is Clock,
        !live.stopping,
        now_us < rules.deadline_us,
        after.phase matches Phase::Writing { intended_us, sent_us } && {
            &&& sent_us == now_us
            &&& c.sched.slot_of(c.sched.complete as nat) <= u64::MAX ==> intended_us
                == c.sched.slot_of(c.sched.complete as nat)
        },
        c.sched.slot_of(c.sched.complete as nat) <= now_us,
        after.sched.complete == c.sched.complete,
        after.result == c.result,
        live_after.tally == live.tally,
{
}

/// A connection that has to wait sends nothing until the wait is over: from pacing it
/// waits for the time that its schedule gives, sleeping only as long as leaves the
/// last 100 microseconds to be spun away, and from waiting it moves on as soon as
/// that time has come.
pub proof fn law_a_wait_is_kept(
    c: Connection,
    rules: RunRules,
    live: LiveRun,
    now_us: u64,
    after: Connection,
    live_after: LiveRun,
    action: ConnAction,
)
    requires
        c.wf(),
        c.stepped(rules, live, now_us, ConnEvent::Clock, after, live_after, action),
        !live.stopping,
        now_us < rules.deadline_us,
        c.phase == Phase::Pacing ==> now_us + c.sched.wait(now_us as nat) <= u64::MAX,
    ensures
        c.phase == Phase::Pacing && c.sched.wait(now_us as nat) == 0 ==> action
            == ConnAction::Send,
        c.phase == Phase::Pacing && c.sched.wait(now_us as nat) > 0 ==> {
            &&& after.phase matches Phase::Waiting { due_us } && due_us == now_us + c.sched.wait(
                now_us as nat,
            )
            &&& action matches ConnAction::Sleep { until_us } ==> until_us + 100 == now_us
                + c.sched.wait(now_us as nat)
            &&& action is Sleep <==> c.sched.wait(now_us as nat) > 100
            &&& action is Yield <==> c.sched.wait(now_us as nat) <= 100
        },
        c.phase == Phase::Pacing ==> after.sched == c.sched.after_wait(now_us as nat)
            && live_after == live,
        c.phase matches Phase::Waiting { due_us } ==> {
            &&& now_us >= due_us <==> action == ConnAction::Send
            &&& now_us < due_us ==> action == ConnAction::Yield && after == c && live_after == live
        },
{
}

/// How a worker's own lateness is told. A request that leaves `late` microseconds
/// after the wait for it was over raises the slip to `late` if it was less, and marks
/// the worker as the bottleneck if `late` is at least the time to the next slot. A
/// request that leaves on time changes nothing.
pub proof fn law_lateness_of_the_worker_is_told(
    c: Connection,
    rules: RunRules,
    live: LiveRun,
    due_us: u64,
    now_us: u64,
    after: Connection,
    live_after: LiveRun,
)
    requires
        c.awaited(rules, live, due_us, now_us, after, live_after, ConnAction::Send),
    ensures
        live_after.health.sched_slip_us >= now_us - due_us,
        live_after.health.sched_slip_us >= live.health.sched_slip_us,
        live_after.health.sched_slip_us == now_us - due_us || live_after.health.sched_slip_us
            == live.health.sched_slip_us,
        live_after.health.client_saturated <==> live.health.client_saturated || (now_us > due_us
            && now_us - due_us + c.sched.slot_of(c.sched.complete as nat) >= c.sched.slot_of(
            c.sched.complete as nat + 1,
        )),
        live_after.health.conn_errors == live.health.conn_errors,
        live_after.health.timeouts == live.health.timeouts,
        now_us == due_us ==> live_after.health == live.health,
{
}

/// A connection that breaks or times out is over, counted once for what happened to
/// it and under no verdict; nothing that was counted before is lost.
pub proof fn law_a_broken_connection_counts_once(
    c: Connection,
    live: LiveRun,
    after: Connection,
    live_after: LiveRun,
    action: ConnAction,
)
    requires
        c.wf(),
        c.phase != Phase::Done,
        c.broken(live, after, live_after, action) || c.timed_out(live, after, live_after, action),
        live.health.conn_errors < u64::MAX,
        live.health.timeouts < u64::MAX,
    ensures
        action == ConnAction::Finish,
        after.phase == Phase::Done,
        after.result.tally == c.result.tally,
        live_after.tally == live.tally,
        live_after.histos == live.histos,
        c.broken(live, after, live_after, action) ==> {
            &&& after.result.conn_errors == 1 && after.result.timeouts == 0
            &&& live_after.health.conn_errors == live.health.conn_errors + 1
            &&& live_after.health.timeouts == live.health.timeouts
        },
        c.timed_out(live, after, live_after, action) ==> {
            &&& after.result.timeouts == 1 && after.result.conn_errors == 0
            &&& live_after.health.timeouts == live.health.timeouts + 1
            &&& live_after.health.conn_errors == live.health.conn_errors
        },
{
}

/// Which failure is which: a target that closes the connection, a write that fails
/// and a read that fails break it; only a response that is not there in time is a
/// timeout.
pub proof fn law_only_a_missing_response_times_out(
    c: Connection,
    rules: RunRules,
    live: LiveRun,
    now_us: u64,
    event: ConnEvent,
    after: Connection,
    live_after: LiveRun,
    action: ConnAction,
)
    requires
        c.wf(),
        c.expects(event),
        c.stepped(rules, live, now_us, event, after, live_after, action),
    ensures
        event is WriteFailed || event is ReadFailed ==> after.result.conn_errors == 1,
        event matches ConnEvent::Received(bytes) ==> (bytes@.len() == 0
            ==> after.result.conn_errors == 1),
        event is ReadTimedOut ==> after.result.timeouts == 1,
        event is WriteFailed || event is ReadFailed || event is ReadTimedOut ==> action
            == ConnAction::Finish,
        event is Clock ==> after.result == c.result && live_after.tally == live.tally,
{
}

/// The wait for a response lasts as long as the run's limit, counted from when its
/// request was on the wire.
pub proof fn law_a_response_has_its_full_time(c: Connection, rules: RunRules, now_us: u64)
    requires
        c.phase is Writing,
        now_us + rules.timeout_us <= u64::MAX,
    ensures
        c.reading(rules, now_us).phase matches Phase::Reading {
            intended_us,
            sent_us,
            deadline_us,
        } && {
            &&& deadline_us == now_us + rules.timeout_us
            &&& intended_us == c.phase->Writing_intended_us
            &&& sent_us == c.phase->Writing_sent_us
        },
        c.reading(rules, now_us).sched == c.sched,
        c.reading(rules, now_us).buf == c.buf,
        c.reading(rules, now_us).result == c.result,
{
}

/// A run goes by its spec: its policy on rate limiting, its cap on a wait, its limit
/// on a response's time and its end are those that the spec sets.
pub proof fn law_a_run_goes_by_its_spec(rules: RunRules, spec: RunSpec, plan: RunPlan)
    requires
        rules.set_by(spec, plan),
        plan.plan_of(spec),
        spec.duration_s * 1_000_000 <= u64::MAX,
    ensures
        rules.rate_limit_action == spec.rate_limit_action,
        rules.max_backoff_ms == spec.max_backoff_ms,
        rules.record_onset == spec.record_onset,
        rules.timeout_us == spec.timeout_us,
        rules.deadline_us == spec.duration_s * 1_000_000,
        rules.assertions.max_latency_us == spec.max_latency_us,
        rules.assertions.expected_status@ == spec.expected_status@,
        rules.assertions.sample_every_n == spec.sample_every_n,
        !spec.ramp ==> rules.offered == (RateSchedule::Constant { throughput_us: spec.target_rps }),
{
}

/// Bytes that come in line up behind those that came before, and as soon as they make
/// up a complete response it is taken, once: one response more is counted, its own
/// bytes are gone and the rest is kept. While they do not, nothing is counted and the
/// connection reads on for as long as is left.
pub proof fn law_a_complete_response_is_counted_once(
    c: Connection,
    rules: RunRules,
    live: LiveRun,
    now_us: u64,
    bytes: Vec<u8>,
    after: Connection,
    live_after: LiveRun,
    action: ConnAction,
)
    requires
        c.phase is Reading,
        bytes@.len() > 0,
        c.stepped(
            rules,
            live,
            now_us,
            ConnEvent::Received(bytes),
            after,
            live_after,
            action,
        ),
    ensures
        ({
            let all = c.buf@ + bytes@;
            let found = response::outcome(response::response_head(all, 32), all.len());
            let deadline_us = c.phase->Reading_deadline_us;
            &&& found matches response::OutcomeView::Complete(p) ==> {
                &&& live_after.tally.total == live.tally.total + 1
                &&& after.result.tally.total == c.result.tally.total + 1
                &&& after.buf@ == all.skip(p.msg_len as int)
            }
            &&& found is Bad ==> after.result.conn_errors == 1 && action == ConnAction::Finish
            &&& found is NeedMore && now_us >= deadline_us ==> after.result.timeouts == 1
                && action == ConnAction::Finish
            &&& found is NeedMore && now_us < deadline_us && all.len() < 65_536 ==> {
                &&& live_after == live
                &&& after.result == c.result
                &&& after.buf@ == all
                &&& action matches ConnAction::Receive { room, within_us } && room + all.len()
                    == 65_536 && now_us + within_us == deadline_us
            }
            &&& !(found is Complete) ==> live_after.tally == live.tally
        }),
{
    assert(live_after.tally@.total == live_after.tally.total);
    assert(after.result.tally@.total == after.result.tally.total);
}

/// Sums and times that grow beyond the largest number stay at it; all others are
/// exact.
pub proof fn law_sums_stop_at_the_largest_number(a: u64, b: u64)
    ensures
        a + b <= u64::MAX ==> capped_sum(a, b) == a + b,
        a + b > u64::MAX ==> capped_sum(a, b) == u64::MAX,
        a * 1000 <= u64::MAX ==> millis_us(a) == a * 1000,
        a * 1000 > u64::MAX ==> millis_us(a) == u64::MAX,
        a > b ==> latency(a, b) == a - b,
        a <= b ==> latency(a, b) == 1,
{
}

/// A run that was told to stop sends nothing more, whatever its connections are doing,
/// and keeps all that it has counted.
pub proof fn law_a_stopped_run_sends_nothing(
    c: Connection,
    rules: RunRules,
    live: LiveRun,
    now_us: u64,
    event: ConnEvent,
    after: Connection,
    live_after: LiveRun,
    action: ConnAction,
)
    requires
        c.stepped(rules, live.stopped(), now_us, event, after, live_after, action),
    ensures
        action != ConnAction::Send,
        live_after.stopping,
        live.stopped().tally == live.tally,
        live.stopped().histos == live.histos,
        live.stopped().signal == live.signal,
        live.stopped().samples == live.samples,
{
    law_stopping_sends_nothing_more(
        c,
        rules,
        live.stopped(),
        now_us,
        event,
        after,
        live_after,
        action,
    );
}

/// A connection that could not be opened is over from the start and counts as one
/// failure, for itself and for the run, and under no verdict.
pub proof fn law_a_connection_never_opened_counts_as_a_failure(
    c: Connection,
    sched: ConnSched,
    live: LiveRun,
    live_after: LiveRun,
)
    requires
        c.never_opened(sched, live, live_after),
        live.health.conn_errors < u64::MAX,
    ensures
        c.phase == Phase::Done,
        c.result.conn_errors == 1,
        c.result.timeouts == 0,
        c.result.tally.total == 0,
        live_after.health.conn_errors == live.health.conn_errors + 1,
        live_after.health.timeouts == live.health.timeouts,
        live_after.tally == live.tally,
        live_after.histos == live.histos,
{
    assert(c.result.tally@.total == c.result.tally.total);
}

} // verus!

//! Per-connection send schedule, free of coordinated omission.
//!
//! Every request owns a slot on the original schedule, and its latency is
//! measured from that slot, never from the moment the client got round to
//! sending it. A client that falls behind catches up at twice the rate; the
//! catch-up changes how requests are paced and nothing about how they are
//! measured.

use vstd::prelude::*;

use crate::rate::{self, Rate};

verus! {

/// Rate shape of a schedule: constant, or a linear ramp from zero to the peak
/// over `duration_us`.
#[derive(Debug, Clone, Copy, PartialEq, Eq, Structural)]
pub enum RateSchedule {
    Constant { throughput_us: Rate },
    Ramp { duration_us: u64, peak_throughput_us: Rate },
}

impl RateSchedule {
    /// Offset of request `n` from the schedule's start, in microseconds.
    pub open spec fn offset(self, n: nat) -> nat {
        match self {
            RateSchedule::Constant { throughput_us } => throughput_us.slot(n),
            RateSchedule::Ramp { duration_us, peak_throughput_us } => peak_throughput_us.ramp_slot(
                duration_us as nat,
                n,
            ),
        }
    }

    /// The rate offered `t_us` into the schedule, in thousandths of a request
    /// per second.
    pub open spec fn offered(self, t_us: nat) -> nat {
        match self {
            RateSchedule::Constant { throughput_us } => throughput_us.milli(),
            RateSchedule::Ramp { duration_us, peak_throughput_us } => peak_throughput_us.milli_at(
                duration_us as nat,
                t_us,
            ),
        }
    }

    /// Offset of request `n` from the schedule's start.
    pub fn offset_us(&self, n: u64) -> (us: u64)
        ensures
            us == self.offset(n as nat),
    {
        match *self {
            RateSchedule::Constant { throughput_us } => throughput_us.slot_us(n),
            RateSchedule::Ramp { duration_us, peak_throughput_us } => {
                peak_throughput_us.ramp_slot_us(duration_us, n)
            },
        }
    }

    /// The rate offered `t_us` into the schedule.
    pub fn offered_mrps(&self, t_us: u64) -> (r: u64)
        ensures
            r == self.offered(t_us as nat),
    {
        match *self {
            RateSchedule::Constant { throughput_us } => throughput_us.milli_rps(),
            RateSchedule::Ramp { duration_us, peak_throughput_us } => {
                peak_throughput_us.milli_rps_at(duration_us, t_us)
            },
        }
    }
}

/// Scheduling state of one connection.
#[derive(Debug, Clone, Copy, PartialEq, Eq, Structural)]
pub struct ConnSched {
    /// When this connection's schedule starts, in microseconds since the epoch
    /// its worker shares.
    pub thread_start_us: u64,
    /// Completed responses: the index of the request now being scheduled.
    pub complete: u64,
    pub schedule: RateSchedule,
    /// Pace while catching up on a constant schedule, twice the original rate.
    /// A ramp has none: when behind it fires at once.
    pub catch_up_us: Rate,
    /// Whether the connection is on or ahead of its schedule.
    pub caught_up: bool,
    /// When the connection last fell behind.
    pub catch_up_start_time: u64,
    /// `complete` at the moment the connection last fell behind.
    pub complete_at_catch_up_start: u64,
}

impl ConnSched {
    /// The slot of request `n` on the original schedule.
    pub open spec fn slot_of(self, n: nat) -> nat {
        self.thread_start_us as nat + self.schedule.offset(n)
    }

    /// The slot of the request now being scheduled.
    pub open spec fn intended(self) -> nat {
        self.slot_of(self.complete as nat)
    }

    /// Whether the current request's slot lies in the future of `now_us`.
    pub open spec fn on_pace(self, now_us: nat) -> bool {
        self.intended() > now_us
    }

    /// Origin of the catch-up window that holds at `now_us`: its start time and
    /// the request index at its start.
    pub open spec fn window(self, now_us: nat) -> (nat, nat) {
        if self.caught_up {
            (now_us, self.complete as nat)
        } else {
            (self.catch_up_start_time as nat, self.complete_at_catch_up_start as nat)
        }
    }

    /// When the current request may go out while catching up.
    pub open spec fn catch_up_due(self, now_us: nat) -> nat {
        let (start, base) = self.window(now_us);
        start + self.catch_up_us.slot((self.complete - base) as nat)
    }

    /// The times involved in scheduling the current request at `now_us` are
    /// representable, and an open catch-up window does not start in the future.
    pub open spec fn schedulable(self, now_us: nat) -> bool {
        &&& self.intended() <= u64::MAX
        &&& !self.on_pace(now_us) && self.schedule is Constant ==> {
            &&& !self.caught_up ==> self.complete_at_catch_up_start <= self.complete
            &&& self.catch_up_due(now_us) <= u64::MAX
        }
    }

    /// How long to wait before sending the current request at `now_us`.
    pub open spec fn wait(self, now_us: nat) -> nat {
        if self.on_pace(now_us) {
            (self.intended() - now_us) as nat
        } else if self.schedule is Ramp {
            0
        } else if self.catch_up_due(now_us) > now_us {
            (self.catch_up_due(now_us) - now_us) as nat
        } else {
            0
        }
    }

    /// The state after asking how long to wait at `now_us`.
    pub open spec fn after_wait(self, now_us: nat) -> ConnSched {
        if self.on_pace(now_us) {
            ConnSched { caught_up: true, ..self }
        } else if self.schedule is Ramp {
            ConnSched { caught_up: false, ..self }
        } else {
            let (start, base) = self.window(now_us);
            ConnSched {
                caught_up: false,
                catch_up_start_time: start as u64,
                complete_at_catch_up_start: base as u64,
                ..self
            }
        }
    }

    /// Constant-rate schedule. Catch-up runs at twice the rate.
    pub fn new(thread_start_us: u64, throughput_us: Rate) -> (s: Self)
        requires
            2 * throughput_us.requests <= u64::MAX,
        ensures
            s == (ConnSched {
                thread_start_us,
                complete: 0,
                schedule: RateSchedule::Constant { throughput_us },
                catch_up_us: Rate {
                    requests: (2 * throughput_us.requests) as u64,
                    per_us: throughput_us.per_us,
                },
                caught_up: true,
                catch_up_start_time: 0,
                complete_at_catch_up_start: 0,
            }),
    {
        ConnSched {
            thread_start_us,
            complete: 0,
            schedule: RateSchedule::Constant { throughput_us },
            catch_up_us: throughput_us.doubled(),
            caught_up: true,
            catch_up_start_time: 0,
            complete_at_catch_up_start: 0,
        }
    }

    /// Linear ramp from zero to `peak_throughput_us` over `duration_us`.
    pub fn ramp(thread_start_us: u64, duration_us: u64, peak_throughput_us: Rate) -> (s: Self)
        ensures
            s == (ConnSched {
                thread_start_us,
                complete: 0,
                schedule: RateSchedule::Ramp { duration_us, peak_throughput_us },
                catch_up_us: Rate { requests: 0, per_us: 1 },
                caught_up: true,
                catch_up_start_time: 0,
                complete_at_catch_up_start: 0,
            }),
    {
        ConnSched {
            thread_start_us,
            complete: 0,
            schedule: RateSchedule::Ramp { duration_us, peak_throughput_us },
            catch_up_us: Rate { requests: 0, per_us: 1 },
            caught_up: true,
            catch_up_start_time: 0,
            complete_at_catch_up_start: 0,
        }
    }

    /// Whether scheduling the current request at `now_us` stays within the
    /// range of the clock.
    pub fn is_schedulable(&self, now_us: u64) -> (b: bool)
        ensures
            b == self.schedulable(now_us as nat),
    {
        let offset: u64 = self.schedule.offset_us(self.complete);
        if offset > u64::MAX - self.thread_start_us {
            return false;
        }
        if self.thread_start_us + offset > now_us {
            return true;
        }
        match self.schedule {
            RateSchedule::Ramp { .. } => true,
            RateSchedule::Constant { .. } => {
                if self.caught_up {
                    let since: u64 = self.catch_up_us.slot_us(0);
                    since <= u64::MAX - now_us
                } else if self.complete_at_catch_up_start > self.complete {
                    false
                } else {
                    let since: u64 = self.catch_up_us.slot_us(
                        self.complete - self.complete_at_catch_up_start,
                    );
                    since <= u64::MAX - self.catch_up_start_time
                }
            },
        }
    }

    /// The slot of the request now being scheduled, on the original schedule.
    pub fn intended_send_time(&self) -> (us: u64)
        requires
            self.intended() <= u64::MAX,
        ensures
            us == self.intended(),
    {
        self.thread_start_us + self.schedule.offset_us(self.complete)
    }

    /// Microseconds to wait before sending the next request; zero means now.
    pub fn usec_to_next_send(&mut self, now_us: u64) -> (wait_us: u64)
        requires
            old(self).schedulable(now_us as nat),
        ensures
            wait_us == old(self).wait(now_us as nat),
            *final(self) == old(self).after_wait(now_us as nat),
    {
        let next_start_orig: u64 = self.intended_send_time();
        if next_start_orig > now_us {
            self.caught_up = true;
            return next_start_orig - now_us;
        }
        if matches!(self.schedule, RateSchedule::Ramp { .. }) {
            self.caught_up = false;
            return 0;
        }
        if self.caught_up {
            self.caught_up = false;
            self.catch_up_start_time = now_us;
            self.complete_at_catch_up_start = self.complete;
        }
        let since: u64 = self.complete - self.complete_at_catch_up_start;
        let catch_up_next: u64 = self.catch_up_start_time + self.catch_up_us.slot_us(since);
        if catch_up_next > now_us {
            catch_up_next - now_us
        } else {
            0
        }
    }

    /// Count one completed response.
    pub fn advance(&mut self)
        requires
            old(self).complete < u64::MAX,
        ensures
            *final(self) == (ConnSched { complete: (old(self).complete + 1) as u64, ..*old(self) }),
    {
        self.complete = self.complete + 1;
    }

    /// The schedule with its origin moved forward by `delta_us`, at most to the end
    /// of the clock, and its catch-up re-armed.
    pub open spec fn deferred(self, delta_us: u64) -> ConnSched {
        ConnSched {
            thread_start_us: if self.thread_start_us + delta_us <= u64::MAX {
                (self.thread_start_us + delta_us) as u64
            } else {
                u64::MAX
            },
            caught_up: true,
            ..self
        }
    }

    /// Move the schedule's origin forward by `delta_us`, as after a deliberate
    /// pause. Later slots move with it, so the pause is not charged to the
    /// target as latency; the catch-up window is re-armed, so the connection
    /// resumes at the normal rate.
    pub fn defer_origin(&mut self, delta_us: u64)
        ensures
            *final(self) == old(self).deferred(delta_us),
    {
        self.thread_start_us = self.thread_start_us.saturating_add(delta_us);
        self.caught_up = true;
    }
}

/// Intended send times never go backwards: a later request never has an
/// earlier slot.
pub proof fn law_slots_never_go_backwards(s: ConnSched, m: nat, n: nat)
    requires
        m <= n,
    ensures
        s.slot_of(m) <= s.slot_of(n),
{
    match s.schedule {
        RateSchedule::Constant { throughput_us } => rate::lemma_slot_monotone(throughput_us, m, n),
        RateSchedule::Ramp { duration_us, peak_throughput_us } => rate::lemma_ramp_slot_monotone(
            peak_throughput_us,
            duration_us as nat,
            m,
            n,
        ),
    }
}

/// Asking for the wait moves no slot: pacing, catch-up included, never changes
/// what latency is measured from.
pub proof fn law_pacing_moves_no_slot(s: ConnSched, now_us: nat, n: nat)
    ensures
        s.after_wait(now_us).slot_of(n) == s.slot_of(n),
        s.after_wait(now_us).intended() == s.intended(),
{
}

/// A connection on pace waits exactly until its slot, and no wait ever ends
/// before the slot.
pub proof fn law_requests_never_leave_early(s: ConnSched, now_us: nat)
    ensures
        now_us + s.wait(now_us) >= s.intended(),
        s.on_pace(now_us) ==> now_us + s.wait(now_us) == s.intended(),
{
}

/// The moment a connection falls behind, its overdue request goes out at once.
pub proof fn law_falling_behind_fires_at_once(s: ConnSched, now_us: nat)
    requires
        s.caught_up || s.schedule is Ramp,
        !s.on_pace(now_us),
    ensures
        s.wait(now_us) == 0,
        !s.after_wait(now_us).caught_up,
{
    assert(0 * s.catch_up_us.per_us == 0) by (nonlinear_arith);
    if s.catch_up_us.requests > 0 {
        assert(0int / s.catch_up_us.requests as int == 0) by (nonlinear_arith)
            requires
                s.catch_up_us.requests > 0,
        ;
    }
}

/// The pace while catching up is twice the original: the `k`-th request of a
/// catch-up window is due after half the time that the original schedule gives
/// `k` requests, up to one microsecond.
pub proof fn law_catch_up_runs_at_twice_the_rate(s: ConnSched, throughput_us: Rate, k: nat)
    requires
        throughput_us.requests > 0,
        2 * throughput_us.requests <= u64::MAX,
        s.schedule == (RateSchedule::Constant { throughput_us }),
        s.catch_up_us == (Rate {
            requests: (2 * throughput_us.requests) as u64,
            per_us: throughput_us.per_us,
        }),
        k * throughput_us.per_us / throughput_us.requests as int <= u64::MAX,
    ensures
        2 * s.catch_up_us.slot(k) <= s.schedule.offset(k) <= 2 * s.catch_up_us.slot(k) + 1,
{
    rate::lemma_doubled_slot(throughput_us, k);
}

/// While catching up, a request whose predecessor was already due waits no
/// longer than the original interval, up to one microsecond.
pub proof fn law_catch_up_never_overshoots(s: ConnSched, throughput_us: Rate, now_us: nat)
    requires
        throughput_us.requests > 0,
        2 * throughput_us.requests <= u64::MAX,
        s.schedule == (RateSchedule::Constant { throughput_us }),
        s.catch_up_us == (Rate {
            requests: (2 * throughput_us.requests) as u64,
            per_us: throughput_us.per_us,
        }),
        !s.on_pace(now_us),
        !s.caught_up ==> s.complete_at_catch_up_start <= s.complete,
        !s.caught_up && s.complete_at_catch_up_start < s.complete ==> now_us
            >= s.catch_up_start_time + s.catch_up_us.slot(
            (s.complete - s.complete_at_catch_up_start - 1) as nat,
        ),
        !s.caught_up && s.complete_at_catch_up_start == s.complete ==> now_us
            >= s.catch_up_start_time,
    ensures
        s.wait(now_us) <= throughput_us.slot(1) + 1,
{
    if s.caught_up {
        law_falling_behind_fires_at_once(s, now_us);
    } else {
        let k = (s.complete - s.complete_at_catch_up_start) as nat;
        let c = s.catch_up_us;
        if k > 0 {
            rate::lemma_slot_step(c, (k - 1) as nat);
            assert(c.slot(1) <= throughput_us.slot(1)) by {
                let p = throughput_us.per_us as int;
                let r = throughput_us.requests as int;
                assert(1 * p == p) by (nonlinear_arith);
                assert(0 <= p / (2 * r) <= p / r) by (nonlinear_arith)
                    requires
                        r > 0,
                        p >= 0,
                ;
            }
        } else {
            assert(c.slot(0) == 0) by {
                assert(0 * c.per_us == 0) by (nonlinear_arith);
                assert(0int / c.requests as int == 0) by (nonlinear_arith)
                    requires
                        c.requests > 0,
                ;
            }
        }
    }
}

/// A deliberate pause of `delta_us` moves every slot forward by exactly that
/// much, so no later request is charged the pause as latency.
pub proof fn law_pause_is_not_charged(s: ConnSched, paused: ConnSched, delta_us: u64, n: nat)
    requires
        s.thread_start_us + delta_us <= u64::MAX,
        paused == (ConnSched {
            thread_start_us: (s.thread_start_us + delta_us) as u64,
            caught_up: true,
            ..s
        }),
    ensures
        paused.slot_of(n) == s.slot_of(n) + delta_us,
{
}

/// The slots of a constant schedule are exact: request `n` stands `n / R` after the
/// connection's start, rounded down, and the request now being scheduled is the one
/// whose predecessors have all been answered.
pub proof fn law_requests_own_exact_slots(s: ConnSched, throughput_us: Rate, n: nat)
    requires
        throughput_us.requests > 0,
        s.schedule == (RateSchedule::Constant { throughput_us }),
        n * throughput_us.per_us / throughput_us.requests as int <= u64::MAX,
    ensures
        s.slot_of(n) == s.thread_start_us + n * throughput_us.per_us / throughput_us.requests as int,
        n == s.complete ==> s.intended() == s.slot_of(n),
{
    assert(0 <= n * throughput_us.per_us / throughput_us.requests as int) by (nonlinear_arith)
        requires
            throughput_us.requests > 0,
            n >= 0,
            throughput_us.per_us >= 0,
    ;
}

/// A connection whose request is not yet due waits for exactly what is left until
/// its slot, and is on its schedule from then on.
pub proof fn law_wait_ends_at_the_slot(s: ConnSched, throughput_us: Rate, now_us: nat)
    requires
        throughput_us.requests > 0,
        s.schedule == (RateSchedule::Constant { throughput_us }),
        s.complete * throughput_us.per_us / throughput_us.requests as int <= u64::MAX,
        now_us < s.thread_start_us + s.complete * throughput_us.per_us
            / throughput_us.requests as int,
    ensures
        now_us + s.wait(now_us) == s.thread_start_us + s.complete * throughput_us.per_us
            / throughput_us.requests as int,
        s.after_wait(now_us).caught_up,
{
    law_requests_own_exact_slots(s, throughput_us, s.complete as nat);
}

/// A connection that falls behind sends at once and opens a catch-up window at that
/// moment; a connection that is still behind keeps the window it has. Neither
/// touches the schedule.
pub proof fn law_window_opens_once(s: ConnSched, throughput_us: Rate, now_us: nat)
    requires
        throughput_us.requests > 0,
        s.schedule == (RateSchedule::Constant { throughput_us }),
        now_us <= u64::MAX,
        s.thread_start_us + s.complete * throughput_us.per_us / throughput_us.requests as int
            <= now_us,
    ensures
        s.caught_up ==> {
            &&& s.wait(now_us) == 0
            &&& s.after_wait(now_us).catch_up_start_time == now_us
            &&& s.after_wait(now_us).complete_at_catch_up_start == s.complete
        },
        !s.caught_up ==> {
            &&& s.after_wait(now_us).catch_up_start_time == s.catch_up_start_time
            &&& s.after_wait(now_us).complete_at_catch_up_start == s.complete_at_catch_up_start
        },
        !s.after_wait(now_us).caught_up,
        s.after_wait(now_us).schedule == s.schedule,
        s.after_wait(now_us).catch_up_us == s.catch_up_us,
        s.after_wait(now_us).thread_start_us == s.thread_start_us,
        s.after_wait(now_us).complete == s.complete,
{
    law_requests_own_exact_slots(s, throughput_us, s.complete as nat);
    if s.caught_up {
        law_falling_behind_fires_at_once(s, now_us);
    }
}

/// While a connection is behind, the `k`-th request of its catch-up window leaves
/// no earlier than `k / (2 * R)` after the window opened, whenever within the window
/// the wait is asked for; and a wait that is handed out ends there and not later.
pub proof fn law_catch_up_keeps_its_pace(s: ConnSched, throughput_us: Rate, now_us: nat)
    requires
        throughput_us.requests > 0,
        2 * throughput_us.requests <= u64::MAX,
        s.schedule == (RateSchedule::Constant { throughput_us }),
        s.catch_up_us.requests == 2 * throughput_us.requests,
        s.catch_up_us.per_us == throughput_us.per_us,
        !s.caught_up,
        s.complete_at_catch_up_start <= s.complete,
        now_us <= u64::MAX,
        s.thread_start_us + s.complete * throughput_us.per_us / throughput_us.requests as int
            <= now_us,
    ensures
        ({
            let k = s.complete - s.complete_at_catch_up_start;
            let leaves = now_us + s.wait(now_us) - s.catch_up_start_time;
            &&& (leaves + 1) * (2 * throughput_us.requests) > k * throughput_us.per_us
            &&& s.wait(now_us) > 0 ==> leaves * (2 * throughput_us.requests) <= k
                * throughput_us.per_us
        }),
{
    law_requests_own_exact_slots(s, throughput_us, s.complete as nat);
    let k = (s.complete - s.complete_at_catch_up_start) as nat;
    let p = throughput_us.per_us as int;
    let r = throughput_us.requests as int;
    let c = s.catch_up_us;
    rate::law_slots_are_evenly_spaced(c, k);
    let leaves = now_us + s.wait(now_us) - s.catch_up_start_time;
    assert(leaves >= c.slot(k));
    assert(s.complete * p / r <= u64::MAX);
    assert(k * p / (2 * r) <= s.complete * p / r && k * p / (2 * r) >= 0) by (nonlinear_arith)
        requires
            0 <= k <= s.complete,
            p >= 0,
            r > 0,
    ;
    let q = k * p / (2 * r);
    assert(q * (2 * r) <= k * p < (q + 1) * (2 * r)) by (nonlinear_arith)
        requires
            q == k * p / (2 * r),
            r > 0,
    ;
    assert(c.slot(k) == q);
    assert((leaves + 1) * (2 * r) >= (q + 1) * (2 * r)) by (nonlinear_arith)
        requires
            leaves >= q,
            r > 0,
    ;
}

/// Over a whole catch-up: a connection that fell behind at `fell_us` and has since
/// been answered `k` times, but is behind still, sends its next request no earlier
/// than `k / (2 * R)` after `fell_us`.
pub proof fn law_catch_up_paces_every_later_request(
    s: ConnSched,
    throughput_us: Rate,
    fell_us: nat,
    k: nat,
    now_us: nat,
)
    requires
        throughput_us.requests > 0,
        2 * throughput_us.requests <= u64::MAX,
        s.schedule == (RateSchedule::Constant { throughput_us }),
        s.catch_up_us.requests == 2 * throughput_us.requests,
        s.catch_up_us.per_us == throughput_us.per_us,
        s.caught_up,
        fell_us <= now_us <= u64::MAX,
        s.complete + k <= u64::MAX,
        s.thread_start_us + s.complete * throughput_us.per_us / throughput_us.requests as int
            <= fell_us,
        s.thread_start_us + (s.complete + k) * throughput_us.per_us / throughput_us.requests as int
            <= now_us,
    ensures
        ({
            let later = ConnSched {
                complete: (s.complete + k) as u64,
                ..s.after_wait(fell_us)
            };
            (now_us + later.wait(now_us) - fell_us + 1) * (2 * throughput_us.requests) > k
                * throughput_us.per_us
        }),
{
    law_window_opens_once(s, throughput_us, fell_us);
    let later = ConnSched { complete: (s.complete + k) as u64, ..s.after_wait(fell_us) };
    law_catch_up_keeps_its_pace(later, throughput_us, now_us);
}

/// On a ramp a request waits for the time at which the climbing rate has released
/// it, and one whose time has come leaves at once: there is no catch-up pace.
pub proof fn law_ramp_waits_for_the_square(
    s: ConnSched,
    duration_us: u64,
    peak_throughput_us: Rate,
    now_us: nat,
)
    requires
        peak_throughput_us.requests > 0,
        s.schedule == (RateSchedule::Ramp { duration_us, peak_throughput_us }),
        s.thread_start_us <= now_us,
        s.intended() < u64::MAX,
    ensures
        ({
            let t = now_us + s.wait(now_us) - s.thread_start_us;
            let area = 2 * (duration_us * s.complete * peak_throughput_us.per_us);
            &&& area < (t + 1) * (t + 1) * peak_throughput_us.requests
            &&& s.wait(now_us) > 0 ==> t * t * peak_throughput_us.requests <= area
        }),
        s.after_wait(now_us).slot_of(s.complete as nat) == s.slot_of(s.complete as nat),
{
    let n = s.complete as nat;
    let d = duration_us as nat;
    rate::law_ramp_slots_follow_the_square(peak_throughput_us, d, n);
    let u = peak_throughput_us.ramp_slot(d, n) as int;
    let t = now_us + s.wait(now_us) - s.thread_start_us;
    let r = peak_throughput_us.requests as int;
    assert(t >= u);
    assert((u + 1) * (u + 1) * r <= (t + 1) * (t + 1) * r) by (nonlinear_arith)
        requires
            0 <= u <= t,
            r > 0,
    ;
}

/// Moving the origin moves every slot by exactly the pause, keeps the count, and
/// re-arms the catch-up: a connection that was on its schedule is on it still, with
/// the same wait, once the pause is over.
pub proof fn law_deferred_schedule_is_the_same_schedule(
    s: ConnSched,
    delta_us: u64,
    now_us: nat,
    n: nat,
)
    requires
        s.thread_start_us + delta_us <= u64::MAX,
    ensures
        s.deferred(delta_us).slot_of(n) == s.slot_of(n) + delta_us,
        s.deferred(delta_us).complete == s.complete,
        s.deferred(delta_us).intended() == s.intended() + delta_us,
        now_us < s.intended() ==> s.deferred(delta_us).wait(now_us + delta_us as nat) == s.wait(
            now_us,
        ),
        s.intended() <= now_us ==> s.deferred(delta_us).wait(now_us + delta_us as nat) == 0,
{
    if s.intended() <= now_us {
        law_falling_behind_fires_at_once(s.deferred(delta_us), now_us + delta_us as nat);
    }
}

/// The rate that a schedule offers, in thousandths of a request per second, rounded
/// down: the same throughout on a constant schedule; on a ramp climbing in a straight
/// line from nothing to the peak, and the peak from then on.
pub proof fn law_schedules_offer_their_rate(rate: Rate, duration_us: u64, t_us: nat)
    requires
        rate.per_us > 0,
        duration_us > 0,
        rate.requests * 1_000_000_000 / rate.per_us as int <= u64::MAX,
    ensures
        ({
            let full = rate.requests * 1_000_000_000 / rate.per_us as int;
            let flat = RateSchedule::Constant { throughput_us: rate };
            let ramp = RateSchedule::Ramp { duration_us, peak_throughput_us: rate };
            &&& flat.offered(t_us) == full
            &&& t_us >= duration_us ==> ramp.offered(t_us) == full
            &&& t_us < duration_us ==> ramp.offered(t_us) * duration_us <= full * t_us < (
            ramp.offered(t_us) + 1) * duration_us
        }),
{
    assert(0 <= rate.requests * 1_000_000_000 / rate.per_us as int) by (nonlinear_arith)
        requires
            rate.per_us > 0,
            rate.requests >= 0,
    ;
    rate::law_ramp_climbs_in_a_line(rate, duration_us as nat, t_us);
}

} // verus!

//! A mock target whose failures depend on the load.
//!
//! Below a threshold of requests per second every response is healthy; above it
//! a share of the responses fail in the way the mode says. Which ones is decided
//! by a request counter, so runs repeat exactly.

use vstd::prelude::*;
use vstd::string::*;

use crate::text;

verus! {

/// Extra latency of a slow response.
pub const SLOW_PENALTY_MS: u64 = 500;

/// The correct response body.
pub const HEALTHY_BODY: &'static str = "{\"status\":\"ok\",\"count\":3,\"items\":[\"a\",\"b\",\"c\"]}";

/// A body of the right shape with a wrong value.
pub const WRONG_VALUE_BODY: &'static str = "{\"status\":\"ok\",\"count\":-1,\"items\":[\"a\",\"b\",\"c\"]}";

/// A body cut short.
pub const TRUNCATE_BODY: &'static str = "{\"status\":\"ok\",\"count\":3,\"items\":[\"a\",\"b";

/// The body of a server error.
pub const ERROR_BODY: &'static str = "{\"status\":\"error\",\"code\":500}";

/// The body of a rate-limit response.
pub const RATELIMIT_BODY: &'static str = "{\"status\":\"error\",\"code\":429}";

/// Milliseconds in one slot of the meter.
pub const SLOT_MS: u64 = 100;

/// Slots in the meter's window: one second in all.
pub const SLOTS: u64 = 10;

/// The requests of one slot. A bucket never used has the slot `u64::MAX`.
#[derive(Debug, Clone, Copy, PartialEq, Eq, Structural)]
pub struct Bucket {
    pub slot: u64,
    pub count: u64,
}

/// A meter of the requests in the last second. Every slot of the clock has its
/// bucket, which it shares with the slots a second before and after.
#[derive(Debug)]
pub struct RpsMeter {
    buckets: Vec<Bucket>,
}

/// The slot that holds the time `ms`.
pub open spec fn slot_of(ms: u64) -> nat {
    (ms / SLOT_MS) as nat
}

/// The first slot of the window that ends with `slot`.
pub open spec fn window_start(slot: nat) -> nat {
    if slot >= SLOTS - 1 {
        (slot - (SLOTS - 1)) as nat
    } else {
        0
    }
}

/// A meter that has seen nothing.
pub open spec fn fresh() -> Seq<Bucket> {
    Seq::new(SLOTS as nat, |i: int| Bucket { slot: u64::MAX, count: 0 })
}

/// The buckets after a request at `ms`: its slot's bucket counts one more, or
/// starts over where it last served another slot.
pub open spec fn metered(buckets: Seq<Bucket>, ms: u64) -> Seq<Bucket> {
    let slot = slot_of(ms);
    let at = (slot % SLOTS as nat) as int;
    if buckets[at].slot == slot {
        buckets.update(
            at,
            Bucket { slot: slot as u64, count: (buckets[at].count + 1) as u64 },
        )
    } else {
        buckets.update(at, Bucket { slot: slot as u64, count: 1 })
    }
}

/// The requests that the first `k` buckets hold of the window that ends with
/// `slot`.
pub open spec fn window_sum(buckets: Seq<Bucket>, slot: nat, k: int) -> nat
    decreases k,
{
    if k <= 0 {
        0
    } else {
        let b = buckets[k - 1];
        window_sum(buckets, slot, k - 1) + if b.slot != u64::MAX && window_start(slot) <= b.slot
            <= slot {
            b.count as nat
        } else {
            0
        }
    }
}

/// All counts of the first `k` buckets together.
pub open spec fn held(buckets: Seq<Bucket>, k: int) -> nat
    decreases k,
{
    if k <= 0 {
        0
    } else {
        held(buckets, k - 1) + buckets[k - 1].count as nat
    }
}

impl RpsMeter {
    /// The meter's buckets.
    pub closed spec fn buckets(self) -> Seq<Bucket> {
        self.buckets@
    }

    /// Ten buckets, whose requests can be counted.
    pub open spec fn wf(self) -> bool {
        &&& self.buckets().len() == SLOTS
        &&& held(self.buckets(), SLOTS as int) < u64::MAX
    }

    pub fn new() -> (m: Self)
        ensures
            m.wf(),
            m.buckets() == fresh(),
    {
        let mut buckets: Vec<Bucket> = Vec::new();
        let mut i: u64 = 0;
        while i < SLOTS
            invariant
                i <= SLOTS,
                buckets@ == Seq::new(i as nat, |k: int| Bucket { slot: u64::MAX, count: 0 }),
            decreases SLOTS - i,
        {
            buckets.push(Bucket { slot: u64::MAX, count: 0 });
            i = i + 1;
        }
        proof {
            reveal_with_fuel(held, 11);
        }
        RpsMeter { buckets }
    }

    /// Whether one more request can be counted.
    pub fn has_room(&self) -> (b: bool)
        requires
            self.wf(),
        ensures
            b == (held(self.buckets(), SLOTS as int) + 1 < u64::MAX),
    {
        let mut sum: u64 = 0;
        let mut i: usize = 0;
        while i < self.buckets.len()
            invariant
                self.wf(),
                i <= self.buckets@.len(),
                sum == held(self.buckets(), i as int),
            decreases self.buckets.len() - i,
        {
            proof {
                lemma_held_monotone(self.buckets(), i + 1, SLOTS as int);
            }
            sum = sum + self.buckets[i].count;
            i = i + 1;
        }
        sum + 1 < u64::MAX
    }

    /// Count a request at `now_ms`.
    pub fn record(&mut self, now_ms: u64)
        requires
            old(self).wf(),
            held(old(self).buckets(), SLOTS as int) + 1 < u64::MAX,
        ensures
            final(self).wf(),
            final(self).buckets() == metered(old(self).buckets(), now_ms),
    {
        let slot: u64 = now_ms / SLOT_MS;
        let at: usize = (slot % SLOTS) as usize;
        proof {
            lemma_held_at(self.buckets(), at as int, SLOTS as int);
        }
        let b: Bucket = self.buckets[at];
        let next: Bucket = if b.slot == slot {
            Bucket { slot, count: b.count + 1 }
        } else {
            Bucket { slot, count: 1 }
        };
        let ghost before = self.buckets@;
        self.buckets.set(at, next);
        proof {
            lemma_held_update(before, at as int, next, SLOTS as int);
        }
    }

    /// The requests of the last second, as of `now_ms`.
    pub fn current_rps(&self, now_ms: u64) -> (rps: u64)
        requires
            self.wf(),
        ensures
            rps == window_sum(self.buckets(), slot_of(now_ms), SLOTS as int),
    {
        let slot: u64 = now_ms / SLOT_MS;
        let oldest: u64 = slot.saturating_sub(SLOTS - 1);
        let mut sum: u64 = 0;
        let mut i: usize = 0;
        while i < self.buckets.len()
            invariant
                self.wf(),
                slot == slot_of(now_ms),
                oldest == window_start(slot as nat),
                i <= self.buckets@.len(),
                sum == window_sum(self.buckets(), slot as nat, i as int),
                sum <= held(self.buckets(), i as int),
            decreases self.buckets.len() - i,
        {
            proof {
                lemma_held_monotone(self.buckets(), i + 1, SLOTS as int);
            }
            let b: Bucket = self.buckets[i];
            if b.slot != u64::MAX && b.slot >= oldest && b.slot <= slot {
                sum = sum + b.count;
            }
            i = i + 1;
        }
        sum
    }
}

proof fn lemma_held_monotone(buckets: Seq<Bucket>, j: int, k: int)
    requires
        0 <= j <= k,
    ensures
        held(buckets, j) <= held(buckets, k),
    decreases k - j,
{
    if j < k {
        lemma_held_monotone(buckets, j, k - 1);
    }
}

proof fn lemma_held_at(buckets: Seq<Bucket>, at: int, k: int)
    requires
        0 <= at < k,
    ensures
        buckets[at].count <= held(buckets, k),
    decreases k,
{
    if at < k - 1 {
        lemma_held_at(buckets, at, k - 1);
    }
}

proof fn lemma_held_update(buckets: Seq<Bucket>, at: int, b: Bucket, k: int)
    requires
        0 <= at < buckets.len(),
        0 <= k <= buckets.len(),
    ensures
        held(buckets.update(at, b), k) == held(buckets, k) + if at < k {
            b.count - buckets[at].count
        } else {
            0
        },
    decreases k,
{
    if k > 0 {
        lemma_held_update(buckets, at, b, k - 1);
    }
}

/// The meter after requests at these times, in order.
pub open spec fn replayed(times: Seq<u64>) -> Seq<Bucket>
    decreases times.len(),
{
    if times.len() == 0 {
        fresh()
    } else {
        metered(replayed(times.drop_last()), times.last())
    }
}

/// How many of the times lie in slots from `lo` to `hi`.
pub open spec fn within(times: Seq<u64>, lo: nat, hi: nat) -> nat
    decreases times.len(),
{
    if times.len() == 0 {
        0
    } else {
        within(times.drop_last(), lo, hi) + if lo <= slot_of(times.last()) <= hi {
            1nat
        } else {
            0
        }
    }
}

/// The times never go backwards.
pub open spec fn ordered(times: Seq<u64>) -> bool {
    forall|i: int, j: int| 0 <= i <= j < times.len() ==> times[i] <= times[j]
}

/// Every bucket of a meter that has seen `times` holds the count of the latest
/// slot that it serves.
spec fn faithful(buckets: Seq<Bucket>, times: Seq<u64>) -> bool {
    &&& buckets.len() == SLOTS
    &&& forall|k: int|
        0 <= k < SLOTS ==> {
            let b = #[trigger] buckets[k];
            if b.slot == u64::MAX {
                &&& b.count == 0
                &&& forall|i: int|
                    0 <= i < times.len() ==> slot_of(#[trigger] times[i]) % SLOTS as nat != k
            } else {
                &&& b.slot as nat % SLOTS as nat == k
                &&& b.count == within(times, b.slot as nat, b.slot as nat)
                &&& forall|i: int|
                    0 <= i < times.len() && slot_of(#[trigger] times[i]) % SLOTS as nat == k
                        ==> slot_of(times[i]) <= b.slot
            }
        }
}

proof fn lemma_none_within(times: Seq<u64>, lo: nat, hi: nat)
    requires
        forall|i: int|
            0 <= i < times.len() ==> !(lo <= slot_of(#[trigger] times[i]) <= hi),
    ensures
        within(times, lo, hi) == 0,
    decreases times.len(),
{
    if times.len() > 0 {
        assert(!(lo <= slot_of(times[times.len() - 1]) <= hi));
        assert forall|i: int| 0 <= i < times.drop_last().len() implies !(lo <= slot_of(
            #[trigger] times.drop_last()[i],
        ) <= hi) by {
            assert(times.drop_last()[i] == times[i]);
        }
        lemma_none_within(times.drop_last(), lo, hi);
    }
}

proof fn lemma_within_at_most_len(times: Seq<u64>, lo: nat, hi: nat)
    ensures
        within(times, lo, hi) <= times.len(),
    decreases times.len(),
{
    if times.len() > 0 {
        lemma_within_at_most_len(times.drop_last(), lo, hi);
    }
}

proof fn lemma_replayed_len(times: Seq<u64>)
    ensures
        replayed(times).len() == SLOTS,
    decreases times.len(),
{
    if times.len() > 0 {
        lemma_replayed_len(times.drop_last());
    }
}

#[verifier::spinoff_prover]
#[verifier::rlimit(60)]
proof fn lemma_faithful(times: Seq<u64>)
    requires
        ordered(times),
        times.len() < u64::MAX,
    ensures
        faithful(replayed(times), times),
    decreases times.len(),
{
    if times.len() > 0 {
        let rest = times.drop_last();
        let ms = times.last();
        let slot = slot_of(ms);
        let at = (slot % SLOTS as nat) as int;
        let before = replayed(rest);
        let after = replayed(times);
        assert(ordered(rest));
        lemma_faithful(rest);
        assert forall|k: int| 0 <= k < SLOTS implies {
            let b = #[trigger] after[k];
            if b.slot == u64::MAX {
                &&& b.count == 0
                &&& forall|i: int|
                    0 <= i < times.len() ==> slot_of(#[trigger] times[i]) % SLOTS as nat != k
            } else {
                &&& b.slot as nat % SLOTS as nat == k
                &&& b.count == within(times, b.slot as nat, b.slot as nat)
                &&& forall|i: int|
                    0 <= i < times.len() && slot_of(#[trigger] times[i]) % SLOTS as nat == k
                        ==> slot_of(times[i]) <= b.slot
            }
        } by {
            let b = after[k];
            let old_b = before[k];
            assert forall|i: int| 0 <= i < rest.len() implies slot_of(#[trigger] rest[i]) <= slot by {
                assert(rest[i] == times[i] && times[i] <= times[times.len() - 1]);
            }
            if k != at {
                assert(b == old_b);
                assert forall|i: int|
                    0 <= i < times.len() && slot_of(#[trigger] times[i]) % SLOTS as nat == k implies i
                    < rest.len() && times[i] == rest[i] by {
                    if i == rest.len() {
                        assert(times[i] == ms);
                    }
                }
            } else {
                lemma_within_at_most_len(rest, slot, slot);
                if old_b.slot != slot {
                    if rest.len() > 0 {
                        assert(rest.last() == times[times.len() - 2]);
                        assert(times[times.len() - 2] <= times[times.len() - 1]);
                    }
                    lemma_bucket_not_ahead(rest, ms, k);
                    assert forall|i: int| 0 <= i < rest.len() implies !(slot <= slot_of(
                        #[trigger] rest[i],
                    ) <= slot) by {
                        if slot_of(rest[i]) == slot {
                            assert(slot_of(rest[i]) % SLOTS as nat == k);
                        }
                    }
                    lemma_none_within(rest, slot, slot);
                }
                assert forall|i: int|
                    0 <= i < times.len() && slot_of(#[trigger] times[i]) % SLOTS as nat == k implies slot_of(
                    times[i],
                ) <= b.slot by {
                    if i < rest.len() {
                        assert(rest[i] == times[i]);
                    }
                }
            }
        }
    }
}

proof fn lemma_within_split(times: Seq<u64>, lo: nat, mid: nat, hi: nat)
    requires
        lo <= mid <= hi,
    ensures
        mid < hi ==> within(times, lo, hi) == within(times, lo, mid) + within(times, mid + 1, hi),
    decreases times.len(),
{
    if times.len() > 0 {
        lemma_within_split(times.drop_last(), lo, mid, hi);
    }
}

/// The count of the one slot of a window that bucket `k` serves; 0 where the
/// window has none.
spec fn share(times: Seq<u64>, slot: nat, k: nat) -> nat {
    let r = slot % SLOTS as nat;
    if k <= r {
        within(times, (slot - (r - k)) as nat, (slot - (r - k)) as nat)
    } else if slot >= SLOTS {
        within(times, (slot - r - SLOTS + k) as nat, (slot - r - SLOTS + k) as nat)
    } else {
        0
    }
}

#[verifier::spinoff_prover]
#[verifier::rlimit(60)]
proof fn lemma_share(times: Seq<u64>, now_ms: u64, k: int)
    requires
        ordered(times),
        times.len() < u64::MAX,
        times.len() > 0 ==> times.last() <= now_ms,
        0 <= k < SLOTS,
    ensures
        ({
            let slot = slot_of(now_ms);
            let b = replayed(times)[k];
            share(times, slot, k as nat) == if b.slot != u64::MAX && window_start(slot) <= b.slot
                <= slot {
                b.count as nat
            } else {
                0
            }
        }),
{
    lemma_faithful(times);
    let slot = slot_of(now_ms);
    let r = slot % SLOTS as nat;
    let b = replayed(times)[k];
    assert forall|i: int| 0 <= i < times.len() implies slot_of(#[trigger] times[i]) <= slot by {
        assert(times[i] <= times[times.len() - 1]);
    }
    if k <= r || slot >= SLOTS {
        let w: nat = if k <= r {
            (slot - (r - k)) as nat
        } else {
            (slot - r - SLOTS + k) as nat
        };
        assert(w % SLOTS as nat == k);
        assert(window_start(slot) <= w <= slot);
        if b.slot == u64::MAX || b.slot as nat != w {
            // No time lies in slot `w`: bucket `k` would hold it.
            assert forall|i: int| 0 <= i < times.len() implies !(w <= slot_of(#[trigger] times[i])
                <= w) by {
                if slot_of(times[i]) == w {
                    assert(slot_of(times[i]) % SLOTS as nat == k);
                    assert(b.slot != u64::MAX && w <= b.slot);
                    if b.slot as nat > slot {
                        assert(b.count == within(times, b.slot as nat, b.slot as nat));
                    }
                    lemma_bucket_not_ahead(times, now_ms, k);
                }
            }
            lemma_none_within(times, w, w);
            if b.slot != u64::MAX && window_start(slot) <= b.slot <= slot {
                assert(b.slot as nat % SLOTS as nat == k);
                assert(b.slot as nat == w);
            }
        }
    } else {
        // Fewer slots have passed than the window has: bucket `k` serves none.
        if b.slot != u64::MAX && b.slot as nat <= slot {
            assert(b.slot as nat % SLOTS as nat == k);
            assert(b.slot as nat == k);
        }
    }
}

/// No bucket serves a slot later than the latest request.
proof fn lemma_bucket_not_ahead(times: Seq<u64>, now_ms: u64, k: int)
    requires
        ordered(times),
        times.len() < u64::MAX,
        times.len() > 0 ==> times.last() <= now_ms,
        0 <= k < SLOTS,
    ensures
        replayed(times)[k].slot == u64::MAX || replayed(times)[k].slot <= slot_of(now_ms),
    decreases times.len(),
{
    if times.len() > 0 {
        let rest = times.drop_last();
        assert(ordered(rest));
        if rest.len() > 0 {
            assert(rest.last() == times[times.len() - 2]);
            assert(times[times.len() - 2] <= times[times.len() - 1]);
        }
        lemma_replayed_len(rest);
        lemma_bucket_not_ahead(rest, now_ms, k);
    }
}

/// The meter counts exactly: after requests at times that never go backwards, it
/// answers how many of them fall into the ten slots that end with the current
/// one.
pub proof fn law_meter_counts_the_last_second(times: Seq<u64>, now_ms: u64)
    requires
        ordered(times),
        times.len() < u64::MAX,
        times.len() > 0 ==> times.last() <= now_ms,
    ensures
        window_sum(replayed(times), slot_of(now_ms), SLOTS as int) == within(
            times,
            window_start(slot_of(now_ms)),
            slot_of(now_ms),
        ),
{
    let slot = slot_of(now_ms);
    lemma_sum_of_shares(times, now_ms, SLOTS as int);
    lemma_shares_fill_the_window(times, slot, SLOTS as nat);
    let r = slot % SLOTS as nat;
    if r < SLOTS - 1 && slot >= SLOTS {
        lemma_within_split(
            times,
            window_start(slot),
            (slot - r - 1) as nat,
            slot,
        );
    }
}

/// Every bucket in use is the one of its slot, which is no later than `now_ms`.
spec fn in_place(buckets: Seq<Bucket>, now_ms: u64) -> bool {
    &&& buckets.len() == SLOTS
    &&& forall|k: int|
        0 <= k < SLOTS && (#[trigger] buckets[k]).slot != u64::MAX ==> {
            &&& buckets[k].slot as nat % SLOTS as nat == k
            &&& buckets[k].slot <= slot_of(now_ms)
        }
}

proof fn lemma_in_place(times: Seq<u64>, now_ms: u64)
    requires
        forall|i: int| 0 <= i < times.len() ==> #[trigger] times[i] <= now_ms,
    ensures
        in_place(replayed(times), now_ms),
    decreases times.len(),
{
    if times.len() > 0 {
        let rest = times.drop_last();
        assert forall|i: int| 0 <= i < rest.len() implies #[trigger] rest[i] <= now_ms by {
            assert(rest[i] == times[i]);
        }
        lemma_in_place(rest, now_ms);
        assert(times[times.len() - 1] <= now_ms);
    }
}

proof fn lemma_window_sum_after(buckets: Seq<Bucket>, now_ms: u64, k: int)
    requires
        in_place(buckets, now_ms),
        held(buckets, SLOTS as int) < u64::MAX,
        0 <= k <= SLOTS,
    ensures
        window_sum(metered(buckets, now_ms), slot_of(now_ms), k) == window_sum(
            buckets,
            slot_of(now_ms),
            k,
        ) + if (slot_of(now_ms) % SLOTS as nat) < k {
            1nat
        } else {
            0
        },
    decreases k,
{
    if k > 0 {
        lemma_window_sum_after(buckets, now_ms, k - 1);
        if slot_of(now_ms) % SLOTS as nat == k - 1 {
            lemma_held_at(buckets, k - 1, SLOTS as int);
            // A bucket of an earlier slot lies a whole window back.
            assert(buckets[k - 1].slot != u64::MAX ==> buckets[k - 1].slot as nat % SLOTS as nat == k
                - 1);
        }
    }
}

proof fn lemma_window_passed(buckets: Seq<Bucket>, now_ms: u64, later_ms: u64, k: int)
    requires
        in_place(buckets, now_ms),
        later_ms >= now_ms + 1000,
        0 <= k <= SLOTS,
    ensures
        window_sum(buckets, slot_of(later_ms), k) == 0,
    decreases k,
{
    if k > 0 {
        lemma_window_passed(buckets, now_ms, later_ms, k - 1);
        assert(slot_of(later_ms) >= slot_of(now_ms) + SLOTS);
        assert(buckets[k - 1].slot != u64::MAX ==> buckets[k - 1].slot <= slot_of(now_ms));
    }
}

/// After any requests, in any order, none of them later than `now_ms`, one more
/// request at `now_ms` raises the rate there by exactly one: a bucket taken over
/// from an earlier slot neither keeps its old count nor takes a request of the last
/// second with it. A second later, and from then on, the rate is 0.
pub proof fn law_a_request_counts_once_for_a_second(times: Seq<u64>, now_ms: u64, later_ms: u64)
    requires
        forall|i: int| 0 <= i < times.len() ==> #[trigger] times[i] <= now_ms,
        held(replayed(times), SLOTS as int) < u64::MAX,
    ensures
        window_sum(metered(replayed(times), now_ms), slot_of(now_ms), SLOTS as int) == window_sum(
            replayed(times),
            slot_of(now_ms),
            SLOTS as int,
        ) + 1,
        later_ms >= now_ms + 1000 ==> window_sum(
            metered(replayed(times), now_ms),
            slot_of(later_ms),
            SLOTS as int,
        ) == 0,
{
    lemma_in_place(times, now_ms);
    lemma_window_sum_after(replayed(times), now_ms, SLOTS as int);
    if later_ms >= now_ms + 1000 {
        assert(in_place(metered(replayed(times), now_ms), now_ms));
        lemma_window_passed(metered(replayed(times), now_ms), now_ms, later_ms, SLOTS as int);
    }
}

/// The shares of the first `m` buckets.
spec fn share_sum(times: Seq<u64>, slot: nat, m: nat) -> nat
    decreases m,
{
    if m == 0 {
        0
    } else {
        share_sum(times, slot, (m - 1) as nat) + share(times, slot, (m - 1) as nat)
    }
}

proof fn lemma_sum_of_shares(times: Seq<u64>, now_ms: u64, m: int)
    requires
        ordered(times),
        times.len() < u64::MAX,
        times.len() > 0 ==> times.last() <= now_ms,
        0 <= m <= SLOTS,
    ensures
        window_sum(replayed(times), slot_of(now_ms), m) == share_sum(
            times,
            slot_of(now_ms),
            m as nat,
        ),
    decreases m,
{
    if m > 0 {
        lemma_sum_of_shares(times, now_ms, m - 1);
        lemma_share(times, now_ms, m - 1);
    }
}

/// The first buckets serve the end of the window, the others its beginning.
#[verifier::spinoff_prover]
#[verifier::rlimit(60)]
proof fn lemma_shares_fill_the_window(times: Seq<u64>, slot: nat, m: nat)
    requires
        m <= SLOTS,
    ensures
        ({
            let r = slot % SLOTS as nat;
            let base = (slot - r) as nat;
            if m == 0 {
                share_sum(times, slot, m) == 0
            } else if m <= r + 1 {
                share_sum(times, slot, m) == within(times, base, (base + m - 1) as nat)
            } else if slot < SLOTS {
                share_sum(times, slot, m) == within(times, base, slot)
            } else {
                share_sum(times, slot, m) == within(times, base, slot) + within(
                    times,
                    window_start(slot),
                    (base - SLOTS + m - 1) as nat,
                )
            }
        }),
    decreases m,
{
    let r = slot % SLOTS as nat;
    let base = (slot - r) as nat;
    if m > 0 {
        lemma_shares_fill_the_window(times, slot, (m - 1) as nat);
        if 1 < m <= r + 1 {
            lemma_within_split(times, base, (base + m - 2) as nat, (base + m - 1) as nat);
        } else if m > r + 2 && slot >= SLOTS {
            lemma_within_split(
                times,
                window_start(slot),
                (base - SLOTS + m - 2) as nat,
                (base - SLOTS + m - 1) as nat,
            );
        }
    }
}

/// How the target fails above the cliff.
#[derive(Debug, Clone, Copy, PartialEq, Eq, Structural)]
pub enum Mode {
    Healthy,
    Fast500,
    Truncate,
    WrongValue,
    SlowOk,
    Ratelimit,
}

impl Default for Mode {
    fn default() -> (m: Self)
        ensures
            m == Mode::Healthy,
    {
        Mode::Healthy
    }
}

/// A request's knobs.
#[derive(Debug, Clone, Copy, PartialEq, Eq, Structural)]
pub struct Params {
    pub mode: Mode,
    /// More requests per second than this are above the cliff.
    pub cliff_rps: i64,
    /// Percentage of the responses above the cliff that fail.
    pub pct: i64,
    pub base_latency_ms: u64,
}

/// The cliff of a request that sets none.
pub fn default_cliff() -> (c: i64)
    ensures
        c == 100,
{
    100
}

/// The percentage of a request that sets none.
pub fn default_pct() -> (p: i64)
    ensures
        p == 100,
{
    100
}

/// What to answer a request with.
#[derive(Debug, Clone, Copy)]
pub struct Decision {
    pub above_cliff: bool,
    pub injected: bool,
    pub status: u16,
    pub body: &'static str,
    /// All latency to apply.
    pub latency_ms: u64,
    pub retry_after_secs: Option<u64>,
}

impl Params {
    /// `rps` is above the cliff.
    pub open spec fn above(self, rps: u64) -> bool {
        rps > self.cliff_rps
    }

    /// The `seq`-th request is among those that fail above the cliff.
    pub open spec fn selects(self, seq: u64) -> bool {
        seq % 100 < self.pct
    }

    /// The `seq`-th request, at `rps`, gets the failure.
    pub open spec fn injects(self, rps: u64, seq: u64) -> bool {
        self.above(rps) && self.selects(seq) && self.mode != Mode::Healthy
    }

    /// The status that goes with the mode's failure.
    pub open spec fn failure_status(self) -> u16 {
        match self.mode {
            Mode::Fast500 => 500,
            Mode::Ratelimit => 429,
            _ => 200,
        }
    }

    /// The body that goes with the mode's failure.
    pub open spec fn failure_body(self) -> Seq<char> {
        match self.mode {
            Mode::Fast500 => ERROR_BODY@,
            Mode::Truncate => TRUNCATE_BODY@,
            Mode::WrongValue => WRONG_VALUE_BODY@,
            Mode::Ratelimit => RATELIMIT_BODY@,
            _ => HEALTHY_BODY@,
        }
    }
}

/// `d` answers the `seq`-th request, at `rps`.
pub open spec fn decides(d: Decision, p: Params, rps: u64, seq: u64) -> bool {
    &&& d.above_cliff == p.above(rps)
    &&& d.injected == p.injects(rps, seq)
    &&& if d.injected {
        &&& d.status == p.failure_status()
        &&& d.body@ == p.failure_body()
        &&& d.latency_ms == p.base_latency_ms + if p.mode == Mode::SlowOk {
            SLOW_PENALTY_MS as int
        } else {
            0
        }
        &&& d.retry_after_secs == if p.mode == Mode::Ratelimit {
            Some(1u64)
        } else {
            None
        }
    } else {
        &&& d.status == 200
        &&& d.body@ == HEALTHY_BODY@
        &&& d.latency_ms == p.base_latency_ms
        &&& d.retry_after_secs is None
    }
}

/// Decide the answer to the `seq`-th request, at `rps`.
pub fn decide(p: &Params, rps: u64, seq: u64) -> (d: Decision)
    requires
        p.mode == Mode::SlowOk && p.injects(rps, seq) ==> p.base_latency_ms + SLOW_PENALTY_MS
            <= u64::MAX,
    ensures
        decides(d, *p, rps, seq),
{
    let above_cliff: bool = p.cliff_rps < 0 || rps > p.cliff_rps as u64;
    let selected: bool = p.pct > 0 && seq % 100 < p.pct as u64;
    let injected: bool = above_cliff && selected && p.mode != Mode::Healthy;
    if !injected {
        return Decision {
            above_cliff,
            injected: false,
            status: 200,
            body: HEALTHY_BODY,
            latency_ms: p.base_latency_ms,
            retry_after_secs: None,
        };
    }
    let (status, body): (u16, &'static str) = match p.mode {
        Mode::Fast500 => (500, ERROR_BODY),
        Mode::Truncate => (200, TRUNCATE_BODY),
        Mode::WrongValue => (200, WRONG_VALUE_BODY),
        Mode::Ratelimit => (429, RATELIMIT_BODY),
        _ => (200, HEALTHY_BODY),
    };
    Decision {
        above_cliff,
        injected: true,
        status,
        body,
        latency_ms: if p.mode == Mode::SlowOk {
            p.base_latency_ms + SLOW_PENALTY_MS
        } else {
            p.base_latency_ms
        },
        retry_after_secs: if p.mode == Mode::Ratelimit {
            Some(1)
        } else {
            None
        },
    }
}

/// Below the cliff, and in healthy mode anywhere, every answer is healthy.
pub proof fn law_no_failure_without_cause(d: Decision, p: Params, rps: u64, seq: u64)
    requires
        decides(d, p, rps, seq),
        !p.above(rps) || p.mode == Mode::Healthy,
    ensures
        !d.injected,
        d.status == 200,
        d.body@ == HEALTHY_BODY@,
        d.latency_ms == p.base_latency_ms,
{
}

/// How many of the `n` requests from `seq` on are selected.
pub open spec fn selected_count(p: Params, seq: int, n: nat) -> nat
    decreases n,
{
    if n == 0 {
        0
    } else {
        selected_count(p, seq, (n - 1) as nat) + if (seq + n - 1) % 100 < p.pct {
            1nat
        } else {
            0
        }
    }
}

/// The share of failures is exact: of any hundred requests in a row, `pct` are
/// selected, none where `pct` is below 0 and all where it is above 100.
pub proof fn law_pct_of_a_hundred_are_selected(p: Params, seq: int)
    requires
        seq >= 0,
    ensures
        selected_count(p, seq, 100) == if p.pct < 0 {
            0
        } else if p.pct > 100 {
            100
        } else {
            p.pct as int
        },
{
    lemma_selected_run(p, seq, 100);
}

/// Requests below `x` that are selected.
spec fn selected_below(p: Params, x: int) -> int {
    let pct = if p.pct < 0 {
        0
    } else if p.pct > 100 {
        100
    } else {
        p.pct as int
    };
    let rest = x % 100;
    x / 100 * pct + if rest < pct {
        rest
    } else {
        pct
    }
}

proof fn lemma_selected_run(p: Params, seq: int, n: nat)
    requires
        seq >= 0,
        n <= 100,
    ensures
        selected_count(p, seq, n) == selected_below(p, seq + n) - selected_below(p, seq),
        n == 100 ==> selected_below(p, seq + n) - selected_below(p, seq) == if p.pct < 0 {
            0
        } else if p.pct > 100 {
            100
        } else {
            p.pct as int
        },
    decreases n,
{
    let pct = if p.pct < 0 {
        0
    } else if p.pct > 100 {
        100
    } else {
        p.pct as int
    };
    if n > 0 {
        lemma_selected_run(p, seq, (n - 1) as nat);
        let x = seq + n - 1;
        if x % 100 == 99 {
            assert((x + 1) / 100 == x / 100 + 1 && (x + 1) % 100 == 0);
            assert((x / 100 + 1) * pct == x / 100 * pct + pct) by (nonlinear_arith);
        } else {
            assert((x + 1) / 100 == x / 100 && (x + 1) % 100 == x % 100 + 1);
        }
    }
    if n == 100 {
        assert((seq + 100) / 100 == seq / 100 + 1 && (seq + 100) % 100 == seq % 100);
        assert((seq / 100 + 1) * pct == seq / 100 * pct + pct) by (nonlinear_arith);
    }
}

/// The mock target's state.
#[derive(Debug)]
pub struct AppState {
    pub meter: RpsMeter,
    pub counter: u64,
}

/// One response header.
pub type HeaderPair = (&'static str, String);

/// What the mock target answers.
#[derive(Debug)]
pub struct Reply {
    pub decision: Decision,
    pub headers: Vec<HeaderPair>,
}

/// The mode's name.
pub open spec fn mode_text(m: Mode) -> Seq<char> {
    match m {
        Mode::Healthy => "healthy"@,
        Mode::Fast500 => "fast500"@,
        Mode::Truncate => "truncate"@,
        Mode::WrongValue => "wrong_value"@,
        Mode::SlowOk => "slow_ok"@,
        Mode::Ratelimit => "ratelimit"@,
    }
}

/// The mode's name.
pub fn mode_header(m: Mode) -> (s: &'static str)
    ensures
        s@ == mode_text(m),
{
    match m {
        Mode::Healthy => "healthy",
        Mode::Fast500 => "fast500",
        Mode::Truncate => "truncate",
        Mode::WrongValue => "wrong_value",
        Mode::SlowOk => "slow_ok",
        Mode::Ratelimit => "ratelimit",
    }
}

/// `true` or `false`.
pub open spec fn bool_text(b: bool) -> Seq<char> {
    if b {
        "true"@
    } else {
        "false"@
    }
}

/// `true` or `false`.
pub fn bool_header(b: bool) -> (s: &'static str)
    ensures
        s@ == bool_text(b),
{
    if b {
        "true"
    } else {
        "false"
    }
}

/// Header pairs as plain values.
pub open spec fn header_texts(headers: Seq<HeaderPair>) -> Seq<(Seq<char>, Seq<char>)> {
    Seq::new(headers.len(), |i: int| (headers[i].0@, headers[i].1@))
}

/// The headers of an answer.
pub open spec fn reply_headers(mode: Mode, rps: u64, d: Decision) -> Seq<(Seq<char>, Seq<char>)> {
    let always = seq![
        ("content-type"@, "application/json"@),
        ("x-mock-mode"@, mode_text(mode)),
        ("x-mock-rps"@, text::decimal(rps as nat)),
        ("x-mock-above-cliff"@, bool_text(d.above_cliff)),
        ("x-mock-injected"@, bool_text(d.injected)),
    ];
    match d.retry_after_secs {
        Some(secs) => always.push(("retry-after"@, text::decimal(secs as nat))),
        None => always,
    }
}

impl AppState {
    /// `r` answers a request that arrives at `now_ms`, and `after` is the state from
    /// then on.
    pub open spec fn handles(self, p: Params, now_ms: u64, r: Reply, after: AppState) -> bool {
        let rps = window_sum(after.meter.buckets(), slot_of(now_ms), SLOTS as int) as u64;
        &&& after.meter.buckets() == metered(self.meter.buckets(), now_ms)
        &&& after.counter == self.counter + 1
        &&& decides(r.decision, p, rps, self.counter)
        &&& header_texts(r.headers@) == reply_headers(p.mode, rps, r.decision)
    }

    pub fn new() -> (s: Self)
        ensures
            s.meter.wf(),
            s.meter.buckets() == fresh(),
            s.counter == 0,
    {
        AppState { meter: RpsMeter::new(), counter: 0 }
    }

    /// Answer a request that arrives at `now_ms`: it is metered first, and
    /// numbered in order of arrival.
    pub fn handle(&mut self, p: &Params, now_ms: u64) -> (r: Reply)
        requires
            old(self).meter.wf(),
            held(old(self).meter.buckets(), SLOTS as int) + 1 < u64::MAX,
            old(self).counter < u64::MAX,
            p.mode == Mode::SlowOk ==> p.base_latency_ms + SLOW_PENALTY_MS <= u64::MAX,
        ensures
            final(self).meter.wf(),
            old(self).handles(*p, now_ms, r, *final(self)),
    {
        self.meter.record(now_ms);
        let rps: u64 = self.meter.current_rps(now_ms);
        let seq: u64 = self.counter;
        self.counter = self.counter + 1;
        let d: Decision = decide(p, rps, seq);
        let mut headers: Vec<HeaderPair> = Vec::new();
        headers.push(("content-type", "application/json".to_owned()));
        headers.push(("x-mock-mode", mode_header(p.mode).to_owned()));
        headers.push(("x-mock-rps", text::decimal_text(rps)));
        headers.push(("x-mock-above-cliff", bool_header(d.above_cliff).to_owned()));
        headers.push(("x-mock-injected", bool_header(d.injected).to_owned()));
        if let Some(secs) = d.retry_after_secs {
            headers.push(("retry-after", text::decimal_text(secs)));
        }
        assert(header_texts(headers@) =~= reply_headers(p.mode, rps, d));
        Reply { decision: d, headers }
    }
}

/// The meter's window is the last second in steps of a tenth: a request counts as long
/// as its tenth of a second is the current one or one of the nine before it.
pub proof fn law_the_window_is_ten_tenths_of_a_second(ms: u64, now_ms: u64)
    ensures
        window_start(slot_of(now_ms)) <= slot_of(ms) <= slot_of(now_ms) <==> ms / 100 <= now_ms
            / 100 && now_ms / 100 <= ms / 100 + 9,
{
}

/// Which requests fail: those at a rate above the cliff whose number, counted by
/// hundreds, is below the percentage, unless the target is in healthy mode. No other
/// request does.
pub proof fn law_failures_come_above_the_cliff_alone(d: Decision, p: Params, rps: u64, seq: u64)
    requires
        decides(d, p, rps, seq),
    ensures
        d.above_cliff <==> rps > p.cliff_rps,
        d.injected <==> rps > p.cliff_rps && seq % 100 < p.pct && p.mode != Mode::Healthy,
        !d.injected ==> {
            &&& d.status == 200
            &&& d.body@ == HEALTHY_BODY@
            &&& d.latency_ms == p.base_latency_ms
            &&& d.retry_after_secs is None
        },
{
}

/// How they fail: each mode has its own status, body and delay, and only a rate-limit
/// response says when to come back.
pub proof fn law_each_mode_fails_in_its_own_way(d: Decision, p: Params, rps: u64, seq: u64)
    requires
        decides(d, p, rps, seq),
        d.injected,
    ensures
        p.mode == Mode::Fast500 ==> d.status == 500 && d.body@ == ERROR_BODY@,
        p.mode == Mode::Truncate ==> d.status == 200 && d.body@ == TRUNCATE_BODY@,
        p.mode == Mode::WrongValue ==> d.status == 200 && d.body@ == WRONG_VALUE_BODY@,
        p.mode == Mode::SlowOk ==> d.status == 200 && d.body@ == HEALTHY_BODY@ && d.latency_ms
            == p.base_latency_ms + 500,
        p.mode == Mode::Ratelimit ==> d.status == 429 && d.body@ == RATELIMIT_BODY@
            && d.retry_after_secs == Some(1u64),
        p.mode != Mode::SlowOk ==> d.latency_ms == p.base_latency_ms,
        p.mode != Mode::Ratelimit ==> d.retry_after_secs is None,
{
}

/// A request is judged by the rate that it is itself part of, and numbered in order of
/// arrival: after requests at `times`, the next one at `now_ms` sees as its rate how
/// many of them, itself included, fall into the last second, and its number is how
/// many came before it.
pub proof fn law_a_request_meets_the_rate_it_is_part_of(
    s: AppState,
    p: Params,
    now_ms: u64,
    r: Reply,
    after: AppState,
    times: Seq<u64>,
)
    requires
        s.handles(p, now_ms, r, after),
        s.meter.buckets() == replayed(times),
        s.counter == times.len(),
        ordered(times.push(now_ms)),
        times.len() + 1 < u64::MAX,
    ensures
        ({
            let rps = within(
                times.push(now_ms),
                window_start(slot_of(now_ms)),
                slot_of(now_ms),
            );
            &&& r.decision.above_cliff <==> rps > p.cliff_rps
            &&& r.decision.injected <==> rps > p.cliff_rps && times.len() as int % 100 < p.pct
                && p.mode != Mode::Healthy
            &&& after.meter.buckets() == replayed(times.push(now_ms))
            &&& after.counter == times.len() + 1
            &&& header_texts(r.headers@)[2] == ("x-mock-rps"@, text::decimal(rps))
        }),
{
    let all = times.push(now_ms);
    assert(all.drop_last() =~= times);
    law_meter_counts_the_last_second(all, now_ms);
    lemma_within_at_most_len(all, window_start(slot_of(now_ms)), slot_of(now_ms));
}

/// An answer tells of itself: what kind of content it is, the mode, the rate, whether
/// that is above the cliff and whether the answer is a failure; and when to come back
/// only where it is a rate-limit response.
pub proof fn law_an_answer_tells_of_itself(mode: Mode, rps: u64, d: Decision)
    ensures
        ({
            let h = reply_headers(mode, rps, d);
            &&& h[0] == ("content-type"@, "application/json"@)
            &&& h[1] == ("x-mock-mode"@, match mode {
                Mode::Healthy => "healthy"@,
                Mode::Fast500 => "fast500"@,
                Mode::Truncate => "truncate"@,
                Mode::WrongValue => "wrong_value"@,
                Mode::SlowOk => "slow_ok"@,
                Mode::Ratelimit => "ratelimit"@,
            })
            &&& h[2] == ("x-mock-rps"@, text::decimal(rps as nat))
            &&& h[3] == ("x-mock-above-cliff"@, if d.above_cliff {
                "true"@
            } else {
                "false"@
            })
            &&& h[4] == ("x-mock-injected"@, if d.injected {
                "true"@
            } else {
                "false"@
            })
            &&& d.retry_after_secs matches Some(secs) ==> h.len() == 6 && h[5] == (
                "retry-after"@,
                text::decimal(secs as nat),
            )
            &&& d.retry_after_secs is None ==> h.len() == 5
        }),
{
}

} // verus!

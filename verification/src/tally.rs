//! Counting responses by verdict.
//!
//! Every completed response counts as exactly one of pass, one of the four
//! failures, or rate limited. Rate limiting is an artifact of the offered load
//! and stays outside the correctness denominator.

use vstd::prelude::*;

verus! {

/// What was concluded about one response.
#[derive(Debug, Clone, Copy, PartialEq, Eq, Structural)]
pub enum Verdict {
    Pass,
    FailStatus,
    FailLatency,
    FailSize,
    FailContentType,
    RateLimited,
}

/// How many responses there were, and how many of each verdict.
#[derive(Debug, Clone, Copy, PartialEq, Eq, Structural)]
pub struct Tally {
    pub total: u64,
    pub pass: u64,
    pub fail_status: u64,
    pub fail_latency: u64,
    pub fail_size: u64,
    pub fail_content_type: u64,
    pub rate_limited: u64,
}

/// A tally without a bound on its counts.
pub struct Counts {
    pub total: int,
    pub pass: int,
    pub fail_status: int,
    pub fail_latency: int,
    pub fail_size: int,
    pub fail_content_type: int,
    pub rate_limited: int,
}

impl Counts {
    pub open spec fn zero() -> Counts {
        Counts {
            total: 0,
            pass: 0,
            fail_status: 0,
            fail_latency: 0,
            fail_size: 0,
            fail_content_type: 0,
            rate_limited: 0,
        }
    }

    /// One response with this verdict.
    pub open spec fn one(v: Verdict) -> Counts {
        Counts {
            total: 1,
            pass: if v == Verdict::Pass { 1 } else { 0 },
            fail_status: if v == Verdict::FailStatus { 1 } else { 0 },
            fail_latency: if v == Verdict::FailLatency { 1 } else { 0 },
            fail_size: if v == Verdict::FailSize { 1 } else { 0 },
            fail_content_type: if v == Verdict::FailContentType { 1 } else { 0 },
            rate_limited: if v == Verdict::RateLimited { 1 } else { 0 },
        }
    }

    pub open spec fn plus(self, other: Counts) -> Counts {
        Counts {
            total: self.total + other.total,
            pass: self.pass + other.pass,
            fail_status: self.fail_status + other.fail_status,
            fail_latency: self.fail_latency + other.fail_latency,
            fail_size: self.fail_size + other.fail_size,
            fail_content_type: self.fail_content_type + other.fail_content_type,
            rate_limited: self.rate_limited + other.rate_limited,
        }
    }

    /// The sum of all.
    pub open spec fn sum(all: Seq<Counts>) -> Counts
        decreases all.len(),
    {
        if all.len() == 0 {
            Counts::zero()
        } else {
            Counts::sum(all.drop_last()).plus(all.last())
        }
    }

    /// Every count fits a `u64`.
    pub open spec fn fits(self) -> bool {
        &&& 0 <= self.total <= u64::MAX
        &&& 0 <= self.pass <= u64::MAX
        &&& 0 <= self.fail_status <= u64::MAX
        &&& 0 <= self.fail_latency <= u64::MAX
        &&& 0 <= self.fail_size <= u64::MAX
        &&& 0 <= self.fail_content_type <= u64::MAX
        &&& 0 <= self.rate_limited <= u64::MAX
    }

    /// Every count is zero or more.
    pub open spec fn nonnegative(self) -> bool {
        &&& 0 <= self.total
        &&& 0 <= self.pass
        &&& 0 <= self.fail_status
        &&& 0 <= self.fail_latency
        &&& 0 <= self.fail_size
        &&& 0 <= self.fail_content_type
        &&& 0 <= self.rate_limited
    }

    /// No count is larger than its counterpart.
    pub open spec fn at_most(self, other: Counts) -> bool {
        &&& self.total <= other.total
        &&& self.pass <= other.pass
        &&& self.fail_status <= other.fail_status
        &&& self.fail_latency <= other.fail_latency
        &&& self.fail_size <= other.fail_size
        &&& self.fail_content_type <= other.fail_content_type
        &&& self.rate_limited <= other.rate_limited
    }

    /// Every response is counted under exactly one verdict.
    pub open spec fn partitioned(self) -> bool {
        self.total == self.pass + self.fail_status + self.fail_latency + self.fail_size
            + self.fail_content_type + self.rate_limited
    }

    /// The responses that say something about correctness: all but the rate
    /// limited ones.
    pub open spec fn denominator(self) -> int {
        self.total - self.rate_limited
    }
}

impl View for Tally {
    type V = Counts;

    open spec fn view(&self) -> Counts {
        Counts {
            total: self.total as int,
            pass: self.pass as int,
            fail_status: self.fail_status as int,
            fail_latency: self.fail_latency as int,
            fail_size: self.fail_size as int,
            fail_content_type: self.fail_content_type as int,
            rate_limited: self.rate_limited as int,
        }
    }
}

/// What was counted since `prev`; zero for a count that went down.
pub open spec fn since(now: u64, prev: u64) -> u64 {
    if now >= prev {
        (now - prev) as u64
    } else {
        0
    }
}

/// The responses that count towards correctness among `total`, of which `rate_limited`
/// were rate limited.
pub open spec fn judged(total: u64, rate_limited: u64) -> u64 {
    since(total, rate_limited)
}

impl Tally {
    pub fn zero() -> (t: Tally)
        ensures
            t@ == Counts::zero(),
    {
        Tally {
            total: 0,
            pass: 0,
            fail_status: 0,
            fail_latency: 0,
            fail_size: 0,
            fail_content_type: 0,
            rate_limited: 0,
        }
    }

    /// Count one response.
    pub fn record(&mut self, v: Verdict)
        requires
            old(self)@.plus(Counts::one(v)).fits(),
        ensures
            final(self)@ == old(self)@.plus(Counts::one(v)),
    {
        self.total = self.total + 1;
        match v {
            Verdict::Pass => self.pass = self.pass + 1,
            Verdict::FailStatus => self.fail_status = self.fail_status + 1,
            Verdict::FailLatency => self.fail_latency = self.fail_latency + 1,
            Verdict::FailSize => self.fail_size = self.fail_size + 1,
            Verdict::FailContentType => self.fail_content_type = self.fail_content_type + 1,
            Verdict::RateLimited => self.rate_limited = self.rate_limited + 1,
        }
    }

    /// Count everything that `other` counted.
    pub fn absorb(&mut self, other: &Tally)
        requires
            old(self)@.plus(other@).fits(),
        ensures
            final(self)@ == old(self)@.plus(other@),
    {
        self.total = self.total + other.total;
        self.pass = self.pass + other.pass;
        self.fail_status = self.fail_status + other.fail_status;
        self.fail_latency = self.fail_latency + other.fail_latency;
        self.fail_size = self.fail_size + other.fail_size;
        self.fail_content_type = self.fail_content_type + other.fail_content_type;
        self.rate_limited = self.rate_limited + other.rate_limited;
    }

    /// Whether the sum of the two tallies fits.
    pub fn can_absorb(&self, other: &Tally) -> (b: bool)
        ensures
            b == self@.plus(other@).fits(),
    {
        other.total <= u64::MAX - self.total && other.pass <= u64::MAX - self.pass
            && other.fail_status <= u64::MAX - self.fail_status && other.fail_latency <= u64::MAX
            - self.fail_latency && other.fail_size <= u64::MAX - self.fail_size
            && other.fail_content_type <= u64::MAX - self.fail_content_type && other.rate_limited
            <= u64::MAX - self.rate_limited
    }

    /// What was counted since `prev` was taken.
    pub fn since(&self, prev: &Tally) -> (t: Tally)
        ensures
            t == (Tally {
                total: since(self.total, prev.total),
                pass: since(self.pass, prev.pass),
                fail_status: since(self.fail_status, prev.fail_status),
                fail_latency: since(self.fail_latency, prev.fail_latency),
                fail_size: since(self.fail_size, prev.fail_size),
                fail_content_type: since(self.fail_content_type, prev.fail_content_type),
                rate_limited: since(self.rate_limited, prev.rate_limited),
            }),
    {
        Tally {
            total: self.total.saturating_sub(prev.total),
            pass: self.pass.saturating_sub(prev.pass),
            fail_status: self.fail_status.saturating_sub(prev.fail_status),
            fail_latency: self.fail_latency.saturating_sub(prev.fail_latency),
            fail_size: self.fail_size.saturating_sub(prev.fail_size),
            fail_content_type: self.fail_content_type.saturating_sub(prev.fail_content_type),
            rate_limited: self.rate_limited.saturating_sub(prev.rate_limited),
        }
    }

    /// The responses that count towards correctness.
    pub fn denominator(&self) -> (d: u64)
        ensures
            d == judged(self.total, self.rate_limited),
    {
        self.total.saturating_sub(self.rate_limited)
    }
}

/// Accounting closes: counting one more response keeps every response under
/// exactly one verdict, and so does adding up tallies.
pub proof fn law_verdicts_partition_the_responses(a: Counts, b: Counts, v: Verdict)
    requires
        a.partitioned(),
        b.partitioned(),
    ensures
        Counts::zero().partitioned(),
        a.plus(Counts::one(v)).partitioned(),
        a.plus(b).partitioned(),
{
}

/// A rate-limited response is never a failure and leaves the pass rate alone:
/// it changes neither the passes, nor any failure, nor the denominator.
pub proof fn law_rate_limiting_leaves_correctness_alone(a: Counts)
    ensures
        ({
            let b = a.plus(Counts::one(Verdict::RateLimited));
            &&& b.pass == a.pass
            &&& b.fail_status == a.fail_status
            &&& b.fail_latency == a.fail_latency
            &&& b.fail_size == a.fail_size
            &&& b.fail_content_type == a.fail_content_type
            &&& b.denominator() == a.denominator()
        }),
{
}

/// A run that only met rate limiting has no correctness to speak of: nothing
/// passed, nothing failed, and the denominator is zero.
pub proof fn law_all_rate_limited_says_nothing_of_correctness(a: Counts)
    requires
        a.nonnegative(),
        a.partitioned(),
        a.rate_limited == a.total,
    ensures
        a.denominator() == 0,
        a.pass == 0,
        a.fail_status == 0 && a.fail_latency == 0 && a.fail_size == 0 && a.fail_content_type == 0,
{
}

/// Every part of a sum of counts is at most the sum.
pub proof fn lemma_part_at_most_sum(all: Seq<Counts>, k: int)
    requires
        0 <= k <= all.len(),
        forall|i: int| 0 <= i < all.len() ==> #[trigger] all[i].nonnegative(),
    ensures
        Counts::sum(all.take(k)).nonnegative(),
        Counts::sum(all.take(k)).at_most(Counts::sum(all)),
    decreases all.len(),
{
    if all.len() == 0 {
        assert(all.take(k) =~= all);
    } else if k == all.len() {
        lemma_part_at_most_sum(all.drop_last(), k - 1);
        assert(all.take(k) =~= all);
        assert(all.drop_last().take(k - 1) =~= all.drop_last());
        assert(all[k - 1].nonnegative());
    } else {
        lemma_part_at_most_sum(all.drop_last(), k);
        assert(all.drop_last().take(k) =~= all.take(k));
        assert(all[all.len() - 1].nonnegative());
    }
}

/// A response adds one to the total and one to the count of its own verdict, and
/// to no other.
pub proof fn law_a_response_counts_under_its_verdict_alone(a: Counts, v: Verdict)
    ensures
        ({
            let b = a.plus(Counts::one(v));
            &&& b.total == a.total + 1
            &&& b.pass - a.pass == (if v is Pass { 1int } else { 0 })
            &&& b.fail_status - a.fail_status == (if v is FailStatus { 1int } else { 0 })
            &&& b.fail_latency - a.fail_latency == (if v is FailLatency { 1int } else { 0 })
            &&& b.fail_size - a.fail_size == (if v is FailSize { 1int } else { 0 })
            &&& b.fail_content_type - a.fail_content_type == (if v is FailContentType {
                1int
            } else {
                0
            })
            &&& b.rate_limited - a.rate_limited == (if v is RateLimited { 1int } else { 0 })
        }),
{
}

/// Adding up keeps every count apart: a sum that starts from nothing grows, field by
/// field, by what each part counted.
pub proof fn law_sums_are_field_by_field(all: Seq<Counts>, c: Counts)
    ensures
        ({
            let none = Counts::sum(Seq::empty());
            &&& none.total == 0 && none.pass == 0 && none.fail_status == 0
            &&& none.fail_latency == 0 && none.fail_size == 0
            &&& none.fail_content_type == 0 && none.rate_limited == 0
        }),
        ({
            let before = Counts::sum(all);
            let after = Counts::sum(all.push(c));
            &&& after.total == before.total + c.total
            &&& after.pass == before.pass + c.pass
            &&& after.fail_status == before.fail_status + c.fail_status
            &&& after.fail_latency == before.fail_latency + c.fail_latency
            &&& after.fail_size == before.fail_size + c.fail_size
            &&& after.fail_content_type == before.fail_content_type + c.fail_content_type
            &&& after.rate_limited == before.rate_limited + c.rate_limited
        }),
{
    assert(all.push(c).drop_last() =~= all);
}

/// A tally counts what its fields say, field by field.
pub proof fn law_a_tally_shows_its_own_fields(t: Tally)
    ensures
        t@.total == t.total,
        t@.pass == t.pass,
        t@.fail_status == t.fail_status,
        t@.fail_latency == t.fail_latency,
        t@.fail_size == t.fail_size,
        t@.fail_content_type == t.fail_content_type,
        t@.rate_limited == t.rate_limited,
        t.rate_limited <= t.total ==> t.rate_limited + since(t.total, t.rate_limited) == t.total,
        t.rate_limited > t.total ==> since(t.total, t.rate_limited) == 0,
{
}

/// What counts towards correctness and what was rate limited make up the whole.
pub proof fn law_all_but_the_rate_limited_are_judged(total: u64, rate_limited: u64)
    ensures
        rate_limited <= total ==> judged(total, rate_limited) + rate_limited == total,
        rate_limited > total ==> judged(total, rate_limited) == 0,
{
}

} // verus!

//! Finding the load at which correctness falls off a cliff.

use vstd::prelude::*;

use crate::run::Bucket;
use crate::{rate, tally};

verus! {

/// Pass rate, in percent, below which a bucket has failed.
pub const CLIFF_THRESHOLD_PCT: u64 = 95;

/// Responses that a bucket needs before its pass rate says anything.
pub const CLIFF_MIN_SAMPLES: u64 = 30;

/// What was counted in one bucket of the load axis over a whole run.
#[derive(Debug, Clone, Copy, PartialEq, Eq, Structural)]
pub struct BucketCounts {
    pub rps_lo: u64,
    pub rps_hi: u64,
    pub total: u64,
    pub pass: u64,
    /// Taken out of the denominator, so that rate limiting makes no cliff.
    pub rate_limited: u64,
}

/// The buckets of a run, each lower edge once, in ascending order.
#[derive(Debug, Clone)]
pub struct BucketAccum {
    entries: Vec<BucketCounts>,
}

spec fn sorted(entries: Seq<BucketCounts>) -> bool {
    forall|i: int, j: int|
        0 <= i < j < entries.len() ==> (#[trigger] entries[i]).rps_lo < (#[trigger] entries[j]).rps_lo
}

spec fn as_map(entries: Seq<BucketCounts>) -> Map<u64, BucketCounts>
    decreases entries.len(),
{
    if entries.len() == 0 {
        Map::empty()
    } else {
        as_map(entries.drop_last()).insert(entries.last().rps_lo, entries.last())
    }
}

impl View for BucketAccum {
    type V = Map<u64, BucketCounts>;

    closed spec fn view(&self) -> Map<u64, BucketCounts> {
        as_map(self.entries@)
    }
}

/// The bucket's counts after `b` was added to what `m` holds for its edge.
pub open spec fn added(m: Map<u64, BucketCounts>, b: BucketCounts) -> BucketCounts {
    if m.dom().contains(b.rps_lo) {
        let e = m[b.rps_lo];
        BucketCounts {
            rps_lo: b.rps_lo,
            rps_hi: b.rps_hi,
            total: (e.total + b.total) as u64,
            pass: (e.pass + b.pass) as u64,
            rate_limited: (e.rate_limited + b.rate_limited) as u64,
        }
    } else {
        b
    }
}

/// Adding `b` overflows no count.
pub open spec fn addable(m: Map<u64, BucketCounts>, b: BucketCounts) -> bool {
    m.dom().contains(b.rps_lo) ==> {
        let e = m[b.rps_lo];
        &&& e.total + b.total <= u64::MAX
        &&& e.pass + b.pass <= u64::MAX
        &&& e.rate_limited + b.rate_limited <= u64::MAX
    }
}

/// The buckets after `bs` were added in order; one whose counts would not fit is
/// left out.
pub open spec fn accumulated(m: Map<u64, BucketCounts>, bs: Seq<BucketCounts>) -> Map<
    u64,
    BucketCounts,
>
    decreases bs.len(),
{
    if bs.len() == 0 {
        m
    } else {
        let before = accumulated(m, bs.drop_last());
        if addable(before, bs.last()) {
            before.insert(bs.last().rps_lo, added(before, bs.last()))
        } else {
            before
        }
    }
}

/// Adding `bs` in order leaves none out.
pub open spec fn all_addable(m: Map<u64, BucketCounts>, bs: Seq<BucketCounts>) -> bool
    decreases bs.len(),
{
    bs.len() > 0 ==> {
        &&& all_addable(m, bs.drop_last())
        &&& addable(accumulated(m, bs.drop_last()), bs.last())
    }
}

impl BucketCounts {
    /// The responses that count towards correctness.
    pub open spec fn denominator(self) -> u64 {
        tally::since(self.total, self.rate_limited)
    }

    /// Enough responses, and too few of them passed.
    pub open spec fn failed(self, threshold_pct: u64, min_samples: u64) -> bool {
        &&& self.denominator() >= min_samples
        &&& self.pass * 100 < threshold_pct * self.denominator()
    }

    /// The middle of the bucket.
    pub open spec fn middle(self) -> u64 {
        ((self.rps_lo + self.rps_hi) / 2) as u64
    }

    /// Whether the bucket has enough responses and too few of them passed.
    pub fn has_failed(&self, threshold_pct: u64, min_samples: u64) -> (b: bool)
        ensures
            b == self.failed(threshold_pct, min_samples),
    {
        let denom: u64 = self.total.saturating_sub(self.rate_limited);
        if denom < min_samples {
            return false;
        }
        proof {
            rate::lemma_product_fits(threshold_pct, denom);
        }
        (self.pass as u128 * 100) < threshold_pct as u128 * denom as u128
    }
}

/// `k` is the lowest edge whose bucket has failed.
pub open spec fn lowest_failed(
    m: Map<u64, BucketCounts>,
    k: u64,
    threshold_pct: u64,
    min_samples: u64,
) -> bool {
    &&& m.dom().contains(k)
    &&& m[k].failed(threshold_pct, min_samples)
    &&& forall|j: u64| j < k && #[trigger] m.dom().contains(j) ==> !m[j].failed(
        threshold_pct,
        min_samples,
    )
}

/// `cliff` is the middle of the lowest bucket that has failed, or nothing where
/// none has.
pub open spec fn is_cliff(
    m: Map<u64, BucketCounts>,
    threshold_pct: u64,
    min_samples: u64,
    cliff: Option<u64>,
) -> bool {
    match cliff {
        Some(c) => exists|k: u64| #[trigger]
            lowest_failed(m, k, threshold_pct, min_samples) && c == m[k].middle(),
        None => forall|k: u64| #[trigger]
            m.dom().contains(k) ==> !m[k].failed(threshold_pct, min_samples),
    }
}

impl BucketAccum {
    /// The edges ascend, and each bucket stands under its own edge.
    pub closed spec fn wf(self) -> bool {
        sorted(self.entries@)
    }

    pub fn new() -> (a: Self)
        ensures
            a.wf(),
            a@ == Map::<u64, BucketCounts>::empty(),
    {
        BucketAccum { entries: Vec::new() }
    }

    /// How many entries have an edge below `lo`.
    fn position(&self, lo: u64) -> (at: usize)
        requires
            self.wf(),
        ensures
            at <= self.entries@.len(),
            forall|i: int| 0 <= i < at ==> (#[trigger] self.entries@[i]).rps_lo < lo,
            forall|i: int| at <= i < self.entries@.len() ==> (#[trigger] self.entries@[i]).rps_lo >= lo,
    {
        let mut at: usize = 0;
        while at < self.entries.len() && self.entries[at].rps_lo < lo
            invariant
                self.wf(),
                at <= self.entries@.len(),
                forall|i: int| 0 <= i < at ==> (#[trigger] self.entries@[i]).rps_lo < lo,
            decreases self.entries.len() - at,
        {
            at = at + 1;
        }
        at
    }

    /// Whether adding `b` overflows no count.
    pub fn can_add(&self, b: &BucketCounts) -> (r: bool)
        requires
            self.wf(),
        ensures
            r == addable(self@, *b),
    {
        let at: usize = self.position(b.rps_lo);
        proof {
            lemma_map(self.entries@);
        }
        if at < self.entries.len() && self.entries[at].rps_lo == b.rps_lo {
            let e: BucketCounts = self.entries[at];
            assert(self@[b.rps_lo] == e);
            e.total <= u64::MAX - b.total && e.pass <= u64::MAX - b.pass && e.rate_limited
                <= u64::MAX - b.rate_limited
        } else {
            true
        }
    }

    /// Add one second's counts to their bucket.
    pub fn add(&mut self, b: &BucketCounts)
        requires
            old(self).wf(),
            addable(old(self)@, *b),
        ensures
            final(self).wf(),
            final(self)@ == old(self)@.insert(b.rps_lo, added(old(self)@, *b)),
    {
        let at: usize = self.position(b.rps_lo);
        let ghost before = self.entries@;
        proof {
            lemma_map(before);
        }
        if at < self.entries.len() && self.entries[at].rps_lo == b.rps_lo {
            let e: BucketCounts = self.entries[at];
            assert(self@[b.rps_lo] == e);
            let sum: BucketCounts = BucketCounts {
                rps_lo: b.rps_lo,
                rps_hi: b.rps_hi,
                total: e.total + b.total,
                pass: e.pass + b.pass,
                rate_limited: e.rate_limited + b.rate_limited,
            };
            self.entries.set(at, sum);
            proof {
                lemma_map(self.entries@);
                assert(self.entries@ == before.update(at as int, sum));
                assert(as_map(self.entries@) =~= as_map(before).insert(b.rps_lo, sum)) by {
                    lemma_map_update(before, at as int, sum);
                }
            }
        } else {
            self.entries.insert(at, *b);
            proof {
                assert(self.entries@ == before.insert(at as int, *b));
                lemma_map(self.entries@);
                lemma_map_insert(before, at as int, *b);
            }
        }
    }

    /// Add the buckets of one tick. Returns whether all counts fit; a bucket whose
    /// counts would not fit is left out.
    pub fn accumulate(&mut self, bs: &Vec<BucketCounts>) -> (fits: bool)
        requires
            old(self).wf(),
        ensures
            final(self).wf(),
            final(self)@ == accumulated(old(self)@, bs@),
            fits == all_addable(old(self)@, bs@),
    {
        let ghost m = self@;
        let mut fits: bool = true;
        let mut i: usize = 0;
        assert(bs@.take(0) =~= Seq::<BucketCounts>::empty());
        while i < bs.len()
            invariant
                m == old(self)@,
                self.wf(),
                i <= bs@.len(),
                self@ == accumulated(m, bs@.take(i as int)),
                fits == all_addable(m, bs@.take(i as int)),
            decreases bs.len() - i,
        {
            assert(bs@.take(i + 1).drop_last() =~= bs@.take(i as int));
            if self.can_add(&bs[i]) {
                self.add(&bs[i]);
            } else {
                fits = false;
            }
            i = i + 1;
        }
        assert(bs@.take(bs@.len() as int) =~= bs@);
        fits
    }

    /// The middle of the lowest bucket whose pass rate fell below the threshold,
    /// among those with enough responses.
    pub fn detect_cliff_rps(&self, threshold_pct: u64, min_samples: u64) -> (r: Option<u64>)
        requires
            self.wf(),
        ensures
            is_cliff(self@, threshold_pct, min_samples, r),
    {
        proof {
            lemma_map(self.entries@);
        }
        let mut i: usize = 0;
        while i < self.entries.len()
            invariant
                self.wf(),
                i <= self.entries@.len(),
                forall|j: int|
                    0 <= j < i ==> !(#[trigger] self.entries@[j]).failed(threshold_pct, min_samples),
            decreases self.entries.len() - i,
        {
            if self.entries[i].has_failed(threshold_pct, min_samples) {
                let b: BucketCounts = self.entries[i];
                proof {
                    lemma_map(self.entries@);
                    assert(self.entries@[i as int] == b);
                    assert(self@.dom().contains(b.rps_lo) && self@[b.rps_lo] == b);
                    assert(lowest_failed(self@, b.rps_lo, threshold_pct, min_samples));
                }
                return Some(((b.rps_lo as u128 + b.rps_hi as u128) / 2) as u64);
            }
            i = i + 1;
        }
        proof {
            lemma_map(self.entries@);
        }
        None
    }
}

/// A sorted list of buckets holds each of them under its edge, and nothing else.
proof fn lemma_map(entries: Seq<BucketCounts>)
    requires
        sorted(entries),
    ensures
        forall|k: u64| #[trigger]
            as_map(entries).dom().contains(k) <==> exists|i: int|
                0 <= i < entries.len() && (#[trigger] entries[i]).rps_lo == k,
        forall|i: int|
            0 <= i < entries.len() ==> as_map(entries).dom().contains(
                (#[trigger] entries[i]).rps_lo,
            ) && as_map(entries)[entries[i].rps_lo] == entries[i],
    decreases entries.len(),
{
    if entries.len() > 0 {
        let rest = entries.drop_last();
        lemma_map(rest);
        assert forall|k: u64| #[trigger] as_map(entries).dom().contains(k) <==> exists|i: int|
            0 <= i < entries.len() && (#[trigger] entries[i]).rps_lo == k by {
            if as_map(rest).dom().contains(k) {
                let i = choose|i: int| 0 <= i < rest.len() && (#[trigger] rest[i]).rps_lo == k;
                assert(entries[i].rps_lo == k);
            }
            if exists|i: int| 0 <= i < entries.len() && (#[trigger] entries[i]).rps_lo == k {
                let i = choose|i: int| 0 <= i < entries.len() && (#[trigger] entries[i]).rps_lo == k;
                if i < rest.len() {
                    assert(rest[i].rps_lo == k);
                }
            }
            if k == entries.last().rps_lo {
                assert(entries[entries.len() - 1].rps_lo == k);
            }
        }
        assert forall|i: int| 0 <= i < entries.len() implies as_map(entries).dom().contains(
            (#[trigger] entries[i]).rps_lo,
        ) && as_map(entries)[entries[i].rps_lo] == entries[i] by {
            if i < rest.len() {
                assert(rest[i] == entries[i]);
                assert(entries[i].rps_lo < entries[entries.len() - 1].rps_lo);
            }
        }
    }
}

proof fn lemma_map_update(entries: Seq<BucketCounts>, at: int, b: BucketCounts)
    requires
        sorted(entries),
        0 <= at < entries.len(),
        entries[at].rps_lo == b.rps_lo,
    ensures
        sorted(entries.update(at, b)),
        as_map(entries.update(at, b)) == as_map(entries).insert(b.rps_lo, b),
{
    let after = entries.update(at, b);
    lemma_map(entries);
    lemma_map(after);
    let m = as_map(entries).insert(b.rps_lo, b);
    assert forall|k: u64| as_map(after).dom().contains(k) <==> m.dom().contains(k) by {
        if as_map(after).dom().contains(k) {
            let i = choose|i: int| 0 <= i < after.len() && (#[trigger] after[i]).rps_lo == k;
            assert(entries[i].rps_lo == k);
        }
        if as_map(entries).dom().contains(k) {
            let i = choose|i: int| 0 <= i < entries.len() && (#[trigger] entries[i]).rps_lo == k;
            assert(after[i].rps_lo == k);
        }
        assert(after[at].rps_lo == b.rps_lo);
    }
    assert forall|k: u64| as_map(after).dom().contains(k) implies as_map(after)[k] == m[k] by {
        let i = choose|i: int| 0 <= i < after.len() && (#[trigger] after[i]).rps_lo == k;
        assert(as_map(after)[after[i].rps_lo] == after[i]);
        if i != at {
            assert(as_map(entries)[entries[i].rps_lo] == entries[i]);
            assert(entries[i].rps_lo != entries[at].rps_lo);
        }
    }
    assert(as_map(after) =~= m);
}

proof fn lemma_map_insert(entries: Seq<BucketCounts>, at: int, b: BucketCounts)
    requires
        sorted(entries),
        0 <= at <= entries.len(),
        forall|i: int| 0 <= i < at ==> (#[trigger] entries[i]).rps_lo < b.rps_lo,
        forall|i: int| at <= i < entries.len() ==> (#[trigger] entries[i]).rps_lo > b.rps_lo,
    ensures
        sorted(entries.insert(at, b)),
        as_map(entries.insert(at, b)) == as_map(entries).insert(b.rps_lo, b),
{
    let after = entries.insert(at, b);
    assert forall|i: int, j: int| 0 <= i < j < after.len() implies (#[trigger] after[i]).rps_lo < (
    #[trigger] after[j]).rps_lo by {
        let i0 = if i < at { i } else { i - 1 };
        let j0 = if j < at { j } else { j - 1 };
        if i != at && j != at {
            assert(entries[i0].rps_lo < entries[j0].rps_lo);
        } else if i == at {
            assert(entries[j0].rps_lo > b.rps_lo);
        } else {
            assert(entries[i0].rps_lo < b.rps_lo);
        }
    }
    lemma_map(entries);
    lemma_map(after);
    let m = as_map(entries).insert(b.rps_lo, b);
    assert forall|k: u64| as_map(after).dom().contains(k) <==> m.dom().contains(k) by {
        if as_map(after).dom().contains(k) {
            let i = choose|i: int| 0 <= i < after.len() && (#[trigger] after[i]).rps_lo == k;
            if i != at {
                let i0 = if i < at { i } else { i - 1 };
                assert(entries[i0].rps_lo == k);
            }
        }
        if as_map(entries).dom().contains(k) {
            let i = choose|i: int| 0 <= i < entries.len() && (#[trigger] entries[i]).rps_lo == k;
            let i1 = if i < at { i } else { i + 1 };
            assert(after[i1].rps_lo == k);
        }
        assert(after[at].rps_lo == b.rps_lo);
    }
    assert forall|k: u64| as_map(after).dom().contains(k) implies as_map(after)[k] == m[k] by {
        let i = choose|i: int| 0 <= i < after.len() && (#[trigger] after[i]).rps_lo == k;
        assert(as_map(after)[after[i].rps_lo] == after[i]);
        if i != at {
            let i0 = if i < at { i } else { i - 1 };
            assert(after[i] == entries[i0]);
            assert(as_map(entries)[entries[i0].rps_lo] == entries[i0]);
            assert(entries[i0].rps_lo != b.rps_lo);
        }
    }
    assert(as_map(after) =~= m);
}

/// There is one answer: a run whose buckets are given has one cliff, or none.
pub proof fn law_cliff_is_unique(
    m: Map<u64, BucketCounts>,
    threshold_pct: u64,
    min_samples: u64,
    a: Option<u64>,
    b: Option<u64>,
)
    requires
        is_cliff(m, threshold_pct, min_samples, a),
        is_cliff(m, threshold_pct, min_samples, b),
    ensures
        a == b,
{
    if let Some(x) = a {
        let k = choose|k: u64| #[trigger]
            lowest_failed(m, k, threshold_pct, min_samples) && x == m[k].middle();
        assert(m.dom().contains(k));
        if let Some(y) = b {
            let j = choose|j: u64| #[trigger]
                lowest_failed(m, j, threshold_pct, min_samples) && y == m[j].middle();
            assert(m.dom().contains(j));
            assert(j == k);
        }
    } else if let Some(y) = b {
        let j = choose|j: u64| #[trigger]
            lowest_failed(m, j, threshold_pct, min_samples) && y == m[j].middle();
        assert(m.dom().contains(j));
    }
}

/// What a tick's bucket counts.
pub open spec fn bucket_counts(b: Bucket) -> BucketCounts {
    BucketCounts {
        rps_lo: b.rps_lo,
        rps_hi: b.rps_hi,
        total: b.total,
        pass: b.pass,
        rate_limited: b.rate_limited,
    }
}

/// What a tick's buckets count.
pub open spec fn buckets_of(bs: Seq<Bucket>) -> Seq<BucketCounts> {
    Seq::new(bs.len(), |i: int| bucket_counts(bs[i]))
}

/// Add a tick's buckets to those of the run. Returns whether all counts fit.
pub fn observe_buckets(accum: &mut BucketAccum, buckets: &Vec<Bucket>) -> (fits: bool)
    requires
        old(accum).wf(),
    ensures
        final(accum).wf(),
        final(accum)@ == accumulated(old(accum)@, buckets_of(buckets@)),
        fits == all_addable(old(accum)@, buckets_of(buckets@)),
{
    let mut v: Vec<BucketCounts> = Vec::new();
    for i in 0..buckets.len()
        invariant
            v@ == Seq::new(i as nat, |k: int| bucket_counts(buckets@[k])),
    {
        let b: Bucket = buckets[i];
        v.push(
            BucketCounts {
                rps_lo: b.rps_lo,
                rps_hi: b.rps_hi,
                total: b.total,
                pass: b.pass,
                rate_limited: b.rate_limited,
            },
        );
    }
    accum.accumulate(&v)
}

/// Rate limiting makes no cliff: adding rate-limited responses to a bucket
/// leaves the verdict on it as it was.
pub proof fn law_rate_limiting_makes_no_cliff(
    b: BucketCounts,
    extra: u64,
    threshold_pct: u64,
    min_samples: u64,
)
    requires
        b.rate_limited <= b.total,
        b.total + extra <= u64::MAX,
    ensures
        ({
            let limited = BucketCounts {
                total: (b.total + extra) as u64,
                rate_limited: (b.rate_limited + extra) as u64,
                ..b
            };
            limited.failed(threshold_pct, min_samples) == b.failed(threshold_pct, min_samples)
        }),
{
}

/// The sum of one count over the ticks that fell into the bucket with the lower edge
/// `edge`.
pub open spec fn over_edge(
    bs: Seq<BucketCounts>,
    edge: u64,
    count: spec_fn(BucketCounts) -> u64,
) -> nat
    decreases bs.len(),
{
    if bs.len() == 0 {
        0
    } else if bs.last().rps_lo == edge {
        over_edge(bs.drop_last(), edge, count) + count(bs.last()) as nat
    } else {
        over_edge(bs.drop_last(), edge, count)
    }
}

/// Some tick fell into the bucket with the lower edge `edge`.
pub open spec fn has_edge(bs: Seq<BucketCounts>, edge: u64) -> bool {
    exists|i: int| 0 <= i < bs.len() && (#[trigger] bs[i]).rps_lo == edge
}

/// A bucket counts what all its ticks counted: over any ticks that fit, its total,
/// its passes and its rate-limited responses are each the sum over the ticks that
/// fell into it, and there is a bucket for just those edges that some tick had. Its
/// upper edge is that of its ticks.
pub proof fn law_buckets_add_up_their_ticks(bs: Seq<BucketCounts>, edge: u64)
    requires
        all_addable(Map::empty(), bs),
    ensures
        ({
            let m = accumulated(Map::empty(), bs);
            &&& m.dom().contains(edge) <==> has_edge(bs, edge)
            &&& m.dom().contains(edge) ==> {
                &&& m[edge].rps_lo == edge
                &&& m[edge].total == over_edge(bs, edge, |b: BucketCounts| b.total)
                &&& m[edge].pass == over_edge(bs, edge, |b: BucketCounts| b.pass)
                &&& m[edge].rate_limited == over_edge(bs, edge, |b: BucketCounts| b.rate_limited)
                &&& exists|i: int|
                    0 <= i < bs.len() && (#[trigger] bs[i]).rps_lo == edge && bs[i].rps_hi
                        == m[edge].rps_hi
            }
            &&& !m.dom().contains(edge) ==> {
                &&& over_edge(bs, edge, |b: BucketCounts| b.total) == 0
                &&& over_edge(bs, edge, |b: BucketCounts| b.pass) == 0
                &&& over_edge(bs, edge, |b: BucketCounts| b.rate_limited) == 0
            }
        }),
    decreases bs.len(),
{
    if bs.len() > 0 {
        let rest = bs.drop_last();
        law_buckets_add_up_their_ticks(rest, edge);
        let before = accumulated(Map::empty(), rest);
        let m = accumulated(Map::empty(), bs);
        let n = bs.len() - 1;
        if has_edge(rest, edge) {
            let i = choose|i: int| 0 <= i < rest.len() && (#[trigger] rest[i]).rps_lo == edge;
            assert(bs[i].rps_lo == edge);
        }
        if has_edge(bs, edge) && bs.last().rps_lo != edge {
            let i = choose|i: int| 0 <= i < bs.len() && (#[trigger] bs[i]).rps_lo == edge;
            assert(rest[i].rps_lo == edge);
        }
        if bs.last().rps_lo == edge {
            assert(bs[n].rps_lo == edge && bs[n].rps_hi == m[edge].rps_hi);
        } else if m.dom().contains(edge) {
            let i = choose|i: int|
                0 <= i < rest.len() && (#[trigger] rest[i]).rps_lo == edge && rest[i].rps_hi
                    == before[edge].rps_hi;
            assert(bs[i].rps_lo == edge && bs[i].rps_hi == m[edge].rps_hi);
        }
    }
}

/// A bucket whose every tick passed, rate-limited responses apart, has not failed,
/// and a run of nothing but such ticks has no cliff.
pub proof fn law_passing_ticks_make_no_cliff(
    bs: Seq<BucketCounts>,
    threshold_pct: u64,
    min_samples: u64,
    cliff: Option<u64>,
)
    requires
        all_addable(Map::empty(), bs),
        threshold_pct <= 100,
        forall|i: int|
            0 <= i < bs.len() ==> (#[trigger] bs[i]).pass + bs[i].rate_limited == bs[i].total,
        is_cliff(accumulated(Map::empty(), bs), threshold_pct, min_samples, cliff),
    ensures
        cliff is None,
{
    if let Some(c) = cliff {
        let m = accumulated(Map::empty(), bs);
        let k = choose|k: u64| #[trigger]
            lowest_failed(m, k, threshold_pct, min_samples) && c == m[k].middle();
        law_buckets_add_up_their_ticks(bs, k);
        lemma_passing_edge(bs, k);
        let p = m[k].pass as int;
        assert(m[k].total - m[k].rate_limited == p);
        assert(threshold_pct * p <= p * 100) by (nonlinear_arith)
            requires
                0 <= threshold_pct <= 100,
                p >= 0,
        ;
    }
}

proof fn lemma_passing_edge(bs: Seq<BucketCounts>, edge: u64)
    requires
        forall|i: int|
            0 <= i < bs.len() ==> (#[trigger] bs[i]).pass + bs[i].rate_limited == bs[i].total,
    ensures
        over_edge(bs, edge, |b: BucketCounts| b.pass) + over_edge(
            bs,
            edge,
            |b: BucketCounts| b.rate_limited,
        ) == over_edge(bs, edge, |b: BucketCounts| b.total),
    decreases bs.len(),
{
    if bs.len() > 0 {
        lemma_passing_edge(bs.drop_last(), edge);
        let last = bs[bs.len() - 1];
        assert(last.pass + last.rate_limited == last.total);
    }
}

/// A bucket fails for too few passes among enough responses, rate-limited ones left
/// out of both: with `n` responses that count, it fails if `n` is at least the
/// minimum and fewer than `threshold_pct` percent of the `n` passed. The point given
/// for it lies midway between its edges.
pub proof fn law_a_bucket_fails_below_the_threshold(
    b: BucketCounts,
    threshold_pct: u64,
    min_samples: u64,
)
    requires
        b.rate_limited <= b.total,
    ensures
        b.failed(threshold_pct, min_samples) <==> {
            let n = b.total - b.rate_limited;
            n >= min_samples && b.pass * 100 < threshold_pct * n
        },
        b.rps_lo <= b.rps_hi ==> b.rps_lo <= b.middle() <= b.rps_hi,
        2 * b.middle() <= b.rps_lo + b.rps_hi <= 2 * b.middle() + 1,
{
}

/// The cliff of a run lies midway in the lowest bucket that failed over the whole
/// run: the ticks that fell into it make up enough responses of which too few
/// passed, and in no bucket below it is that so. A run without a cliff has no such
/// bucket.
pub proof fn law_the_cliff_is_the_lowest_failing_load(
    bs: Seq<BucketCounts>,
    threshold_pct: u64,
    min_samples: u64,
    cliff: Option<u64>,
) -> (at: u64)
    requires
        all_addable(Map::empty(), bs),
        forall|i: int| 0 <= i < bs.len() ==> (#[trigger] bs[i]).rate_limited <= bs[i].total,
        is_cliff(accumulated(Map::empty(), bs), threshold_pct, min_samples, cliff),
    ensures
        cliff matches Some(c) ==> {
            &&& fails_over(bs, at, threshold_pct as int, min_samples as int)
            &&& exists|i: int|
                0 <= i < bs.len() && (#[trigger] bs[i]).rps_lo == at && 2 * c <= at + bs[i].rps_hi
                    <= 2 * c + 1
        },
        cliff is Some ==> forall|edge: u64|
            edge < at ==> !#[trigger] fails_over(bs, edge, threshold_pct as int, min_samples as int),
        cliff is None ==> forall|edge: u64|
            !#[trigger] fails_over(bs, edge, threshold_pct as int, min_samples as int),
{
    let m = accumulated(Map::empty(), bs);
    assert forall|edge: u64|
        #[trigger] fails_over(bs, edge, threshold_pct as int, min_samples as int) <==> (
        m.dom().contains(edge) && m[edge].failed(threshold_pct, min_samples)) by {
        law_buckets_add_up_their_ticks(bs, edge);
        lemma_limited_edge(bs, edge);
        if m.dom().contains(edge) {
            law_a_bucket_fails_below_the_threshold(m[edge], threshold_pct, min_samples);
        }
    }
    match cliff {
        Some(c) => {
            let k = choose|k: u64| #[trigger]
                lowest_failed(m, k, threshold_pct, min_samples) && c == m[k].middle();
            law_buckets_add_up_their_ticks(bs, k);
            lemma_limited_edge(bs, k);
            law_a_bucket_fails_below_the_threshold(m[k], threshold_pct, min_samples);
            k
        },
        None => 0,
    }
}

/// The ticks that fell into the bucket with the lower edge `edge` make up enough
/// responses, of which too few passed.
pub open spec fn fails_over(bs: Seq<BucketCounts>, edge: u64, pct: int, min: int) -> bool {
    let total = over_edge(bs, edge, |b: BucketCounts| b.total);
    let pass = over_edge(bs, edge, |b: BucketCounts| b.pass);
    let limited = over_edge(bs, edge, |b: BucketCounts| b.rate_limited);
    &&& has_edge(bs, edge)
    &&& total - limited >= min
    &&& pass * 100 < pct * (total - limited)
}

proof fn lemma_limited_edge(bs: Seq<BucketCounts>, edge: u64)
    requires
        forall|i: int| 0 <= i < bs.len() ==> (#[trigger] bs[i]).rate_limited <= bs[i].total,
    ensures
        over_edge(bs, edge, |b: BucketCounts| b.rate_limited) <= over_edge(
            bs,
            edge,
            |b: BucketCounts| b.total,
        ),
    decreases bs.len(),
{
    if bs.len() > 0 {
        lemma_limited_edge(bs.drop_last(), edge);
        let last = bs[bs.len() - 1];
        assert(last.rate_limited <= last.total);
    }
}

/// A tick's buckets go in with the counts and edges that the tick gave them.
pub proof fn law_a_ticks_buckets_keep_their_counts(bs: Seq<Bucket>, i: int)
    requires
        0 <= i < bs.len(),
    ensures
        buckets_of(bs).len() == bs.len(),
        buckets_of(bs)[i].rps_lo == bs[i].rps_lo,
        buckets_of(bs)[i].rps_hi == bs[i].rps_hi,
        buckets_of(bs)[i].total == bs[i].total,
        buckets_of(bs)[i].pass == bs[i].pass,
        buckets_of(bs)[i].rate_limited == bs[i].rate_limited,
{
}

/// Ticks whose sums fit are all counted: none is left out.
pub proof fn law_ticks_whose_sums_fit_are_all_counted(bs: Seq<BucketCounts>)
    requires
        forall|i: int|
            0 <= i < bs.len() ==> sums_fit(bs, (#[trigger] bs[i]).rps_lo),
    ensures
        all_addable(Map::empty(), bs),
    decreases bs.len(),
{
    if bs.len() > 0 {
        let rest = bs.drop_last();
        assert forall|i: int| 0 <= i < rest.len() implies sums_fit(
            rest,
            (#[trigger] rest[i]).rps_lo,
        ) by {
            assert(sums_fit(bs, bs[i].rps_lo));
        }
        law_ticks_whose_sums_fit_are_all_counted(rest);
        let last = bs[bs.len() - 1];
        law_buckets_add_up_their_ticks(rest, last.rps_lo);
        assert(sums_fit(bs, last.rps_lo));
    }
}

/// What the ticks count for this edge fits, count by count.
pub open spec fn sums_fit(bs: Seq<BucketCounts>, edge: u64) -> bool {
    &&& over_edge(bs, edge, |b: BucketCounts| b.total) <= u64::MAX
    &&& over_edge(bs, edge, |b: BucketCounts| b.pass) <= u64::MAX
    &&& over_edge(bs, edge, |b: BucketCounts| b.rate_limited) <= u64::MAX
}

} // verus!

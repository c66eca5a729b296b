//! Latency histograms, corrected and uncorrected.
//!
//! The range is 1 µs to 60 s at three significant digits. Histograms of this
//! one shape merge without loss, slot by slot, and travel between machines in
//! the V2-deflate encoding.

use hdrhistogram::serialization::{Deserializer, Serializer, V2DeflateSerializer};
use hdrhistogram::Histogram;
use vstd::prelude::*;

use crate::v2;

verus! {

/// Smallest latency told apart, in microseconds.
pub const MIN_US: u64 = 1;

/// Largest latency recorded as itself; a longer one counts as this.
pub const MAX_US: u64 = 60_000_000;

/// Significant decimal digits kept.
pub const SIG_FIGS: u8 = 3;

/// Slots that a histogram over `MIN_US..=MAX_US` with `SIG_FIGS` digits has.
pub const LATENCY_SLOTS: usize = 17_408;

/// First value beyond the last slot.
pub const LATENCY_LIMIT: u64 = 67_108_864;

/// A histogram's settings: lowest discernible value, highest trackable value,
/// significant digits.
pub type Layout = (u64, u64, u8);

/// A histogram of `u64` counts, kept by `hdrhistogram::Histogram<u64>`. It is
/// made with fixed bounds and never cleared or resized.
#[verifier::external_body]
#[derive(Debug)]
pub struct LatencyHistogram {
    inner: Histogram<u64>,
}

/// The count in each slot of `h`, lowest values first.
pub uninterp spec fn hist_counts(h: LatencyHistogram) -> Seq<u64>;

/// The settings `h` was made with.
pub uninterp spec fn hist_layout(h: LatencyHistogram) -> Layout;

/// What `Histogram::value_at_quantile` answers, the quantile in thousandths.
pub uninterp spec fn hist_quantile(layout: Layout, counts: Seq<u64>, per_mille: nat) -> u64;

/// What `Histogram::max` answers.
pub uninterp spec fn hist_max(layout: Layout, counts: Seq<u64>) -> u64;

/// What `Histogram::add` adds to the slots of a latency histogram for a histogram
/// of other settings, or `None` where it refuses it.
pub uninterp spec fn hist_recast(layout: Layout, counts: Seq<u64>) -> Option<Seq<u64>>;

/// The V2-deflate encoding of a histogram.
pub uninterp spec fn v2_bytes(layout: Layout, counts: Seq<u64>) -> Seq<u8>;

/// The histogram that `Deserializer::deserialize` reads out of the plain form of
/// an encoding, or `None` where it reports an error.
pub uninterp spec fn plain_read(plain: Seq<u8>) -> Option<(Layout, Seq<u64>)>;

/// The histogram that `bytes` encode, in the plain or the compressed form, or
/// `None` where they are malformed.
pub open spec fn v2_read(bytes: Seq<u8>) -> Option<(Layout, Seq<u64>)> {
    match v2::plain_form(bytes) {
        Some(plain) if v2::decodable(plain) => plain_read(plain),
        _ => None,
    }
}

/// The settings of every histogram this library fills.
pub open spec fn latency_layout() -> Layout {
    (MIN_US, MAX_US, SIG_FIGS)
}

/// `h` has the settings of this library's own histograms.
pub open spec fn is_latency(h: LatencyHistogram) -> bool {
    hist_layout(h) == latency_layout() && hist_counts(h).len() == LATENCY_SLOTS
}

/// All counts together.
pub open spec fn total(counts: Seq<u64>) -> nat
    decreases counts.len(),
{
    if counts.len() == 0 {
        0
    } else {
        total(counts.drop_last()) + counts.last() as nat
    }
}

/// All counts below slot `k` together.
pub open spec fn prefix(counts: Seq<u64>, k: int) -> nat {
    total(counts.take(k))
}

/// The slot of a latency histogram that counts `value`: one slot per value up
/// to 2047, then 1024 slots for each doubling.
pub open spec fn slot_of(value: nat) -> nat
    decreases value,
{
    if value < 2048 {
        value
    } else {
        1024 + slot_of(value / 2)
    }
}

/// The largest value that slot `slot` counts.
pub open spec fn slot_top(slot: nat) -> nat
    decreases slot,
{
    if slot < 2048 {
        slot
    } else {
        2 * slot_top((slot - 1024) as nat) + 1
    }
}

/// The sum of two counts, at most the largest `u64`.
pub open spec fn saturating(a: u64, b: u64) -> u64 {
    if a + b <= u64::MAX {
        (a + b) as u64
    } else {
        u64::MAX
    }
}

/// `n`, at most the largest `u64`.
pub open spec fn capped(n: nat) -> nat {
    if n <= u64::MAX {
        n
    } else {
        u64::MAX as nat
    }
}

/// `counts` with one more in slot `slot`.
pub open spec fn bumped(counts: Seq<u64>, slot: int) -> Seq<u64> {
    counts.update(slot, saturating(counts[slot], 1))
}

/// The slot-by-slot sum.
pub open spec fn summed(a: Seq<u64>, b: Seq<u64>) -> Seq<u64> {
    Seq::new(a.len(), |i: int| saturating(a[i], b[i]))
}

/// The largest value of the highest slot in use, 0 where none is.
pub open spec fn top_in_use(counts: Seq<u64>) -> nat
    decreases counts.len(),
{
    if counts.len() == 0 {
        0
    } else if counts.last() > 0 {
        slot_top((counts.len() - 1) as nat)
    } else {
        top_in_use(counts.drop_last())
    }
}

/// The two histograms hold equally many values, and at every slot boundary
/// `low` has at least as many below it as `high`: rank for rank, the values in
/// `high` are no smaller.
pub open spec fn dominated(low: Seq<u64>, high: Seq<u64>) -> bool {
    &&& low.len() == high.len()
    &&& total(low) == total(high)
    &&& forall|k: int| 0 <= k <= low.len() ==> #[trigger] prefix(low, k) >= prefix(high, k)
}

/// `value` brought into the recorded range.
pub open spec fn in_range(value: u64) -> u64 {
    if value < MIN_US {
        MIN_US
    } else if value > MAX_US {
        MAX_US
    } else {
        value
    }
}

/// `hdrhistogram::Histogram::new_with_bounds`: an empty histogram with these
/// settings, which exist for every such argument. The number of slots is
/// claimed for this library's settings only.
#[verifier::external_body]
fn hist_with_bounds(low: u64, high: u64, sigfig: u8) -> (r: Option<LatencyHistogram>)
    requires
        low == 1,
        high >= 2,
        sigfig <= 5,
    ensures
        r is Some,
        hist_layout(r->0) == (low, high, sigfig),
        forall|i: int| 0 <= i < hist_counts(r->0).len() ==> hist_counts(r->0)[i] == 0,
        (low, high, sigfig) == latency_layout() ==> hist_counts(r->0).len() == LATENCY_SLOTS,
{
    Histogram::new_with_bounds(low, high, sigfig).ok().map(|inner| LatencyHistogram { inner })
}

/// `hdrhistogram::Histogram::record` on a latency histogram: one more in the
/// value's slot, or an error and no change where the value lies beyond the last
/// slot. A count at its limit stays there.
#[verifier::external_body]
fn hist_record(h: &mut LatencyHistogram, value: u64) -> (ok: bool)
    requires
        is_latency(*old(h)),
    ensures
        ok == (value < LATENCY_LIMIT),
        hist_layout(*final(h)) == hist_layout(*old(h)),
        ok ==> hist_counts(*final(h)) == bumped(hist_counts(*old(h)), slot_of(value as nat) as int),
        !ok ==> hist_counts(*final(h)) == hist_counts(*old(h)),
{
    h.inner.record(value).is_ok()
}

/// `hdrhistogram::Histogram::add` into a latency histogram. A histogram of the
/// same settings is added slot by slot. One of other settings is recorded anew
/// value by value, each in the slot of the lowest value that it may stand for:
/// which counts that adds is named, of them only that no value is lost is stated.
/// Where its values lie beyond the last slot it is refused and nothing changes; an
/// empty one is never refused. A count at its limit stays there.
#[verifier::external_body]
fn hist_add(h: &mut LatencyHistogram, other: &LatencyHistogram) -> (ok: bool)
    requires
        is_latency(*old(h)),
    ensures
        is_latency(*final(h)),
        is_latency(*other) ==> ok && hist_counts(*final(h)) == summed(
            hist_counts(*old(h)),
            hist_counts(*other),
        ),
        !is_latency(*other) ==> ok == (hist_recast(hist_layout(*other), hist_counts(*other)) is Some),
        !is_latency(*other) && ok ==> {
            let more = hist_recast(hist_layout(*other), hist_counts(*other))->0;
            &&& more.len() == LATENCY_SLOTS
            &&& capped(total(more)) == capped(total(hist_counts(*other)))
            &&& hist_counts(*final(h)) == summed(hist_counts(*old(h)), more)
        },
        !ok ==> hist_counts(*final(h)) == hist_counts(*old(h)),
        total(hist_counts(*other)) == 0 ==> ok,
{
    h.inner.add(&other.inner).is_ok()
}

/// `hdrhistogram::Histogram::len`: all counts together, at most the largest
/// `u64`.
#[verifier::external_body]
fn hist_len(h: &LatencyHistogram) -> (n: u64)
    ensures
        n == capped(total(hist_counts(*h))),
{
    h.inner.len()
}

/// `hdrhistogram::Histogram::max`: for a latency histogram, the largest value of
/// the highest slot in use.
#[verifier::external_body]
fn hist_largest(h: &LatencyHistogram) -> (v: u64)
    ensures
        v == hist_max(hist_layout(*h), hist_counts(*h)),
        is_latency(*h) ==> v == top_in_use(hist_counts(*h)),
{
    h.inner.max()
}

/// `hdrhistogram::Histogram::value_at_quantile`, the quantile in thousandths:
/// 0 for an empty histogram; never smaller for a larger quantile; never smaller
/// for a histogram of the same settings whose values are no smaller rank for
/// rank; never above the highest slot in use. Which rank a quantile picks is
/// computed in floating point and not stated.
#[verifier::external_body]
fn hist_value_at(h: &LatencyHistogram, per_mille: u32) -> (v: u64)
    requires
        per_mille <= 999,
        total(hist_counts(*h)) <= u64::MAX,
    ensures
        v == hist_quantile(hist_layout(*h), hist_counts(*h), per_mille as nat),
        total(hist_counts(*h)) == 0 ==> v == 0,
        forall|q: nat|
            q <= per_mille ==> #[trigger] hist_quantile(hist_layout(*h), hist_counts(*h), q) <= v,
        forall|low: Seq<u64>|
            #![trigger hist_quantile(hist_layout(*h), low, per_mille as nat)]
            dominated(low, hist_counts(*h)) ==> hist_quantile(
                hist_layout(*h),
                low,
                per_mille as nat,
            ) <= v,
        is_latency(*h) ==> v <= top_in_use(hist_counts(*h)),
{
    h.inner.value_at_quantile(format!("{per_mille}e-3").parse().unwrap_or_default())
}

/// `hdrhistogram::serialization::V2DeflateSerializer::serialize`: the V2-deflate
/// encoding, which fails only on a count beyond `i64::MAX`, is never empty, and
/// reads back as the same histogram.
#[verifier::external_body]
fn hist_to_v2(h: &LatencyHistogram) -> (r: Option<Vec<u8>>)
    ensures
        r is Some <==> encodable(hist_counts(*h)),
        r matches Some(bytes) ==> {
            &&& bytes@ == v2_bytes(hist_layout(*h), hist_counts(*h))
            &&& bytes@.len() > 0
            &&& v2_read(bytes@) == Some((hist_layout(*h), hist_counts(*h)))
        },
{
    let mut bytes = Vec::new();
    V2DeflateSerializer::new().serialize(&h.inner, &mut bytes).ok().map(|_| bytes)
}

/// `hdrhistogram::serialization::Deserializer::deserialize` on the plain form of an
/// encoding: the histogram that it encodes, in whatever settings it names, or
/// nothing where the decoder reports an error. The payload must be whole and
/// without a run of `2^63` empty slots, whose length the decoder cannot negate; and
/// its slots must be such as can be numbered on this machine, beyond which the
/// decoder reports an error. What it reads is named, not stated.
#[verifier::external_body]
fn hist_from_plain(plain: &[u8]) -> (r: Option<LatencyHistogram>)
    requires
        v2::decodable(plain@),
    ensures
        r is Some <==> plain_read(plain@) is Some,
        r matches Some(h) ==> plain_read(plain@) == Some((hist_layout(h), hist_counts(h))),
        r matches Some(h) ==> (hist_layout(h) == latency_layout() ==> hist_counts(h).len()
            == LATENCY_SLOTS),
{
    let mut reader = plain;
    Deserializer::new().deserialize(&mut reader).ok().map(|inner| LatencyHistogram { inner })
}

/// `hdrhistogram::Histogram::clone`: a histogram with the same settings and counts.
#[verifier::external_body]
fn hist_copy(h: &LatencyHistogram) -> (r: LatencyHistogram)
    ensures
        hist_layout(r) == hist_layout(*h),
        hist_counts(r) == hist_counts(*h),
{
    LatencyHistogram { inner: h.inner.clone() }
}

impl Clone for LatencyHistogram {
    fn clone(&self) -> (r: Self)
        ensures
            hist_layout(r) == hist_layout(*self),
            hist_counts(r) == hist_counts(*self),
    {
        hist_copy(self)
    }
}

/// A latency histogram's slots, all empty.
pub open spec fn no_counts() -> Seq<u64> {
    Seq::new(LATENCY_SLOTS as nat, |i: int| 0u64)
}

/// An empty histogram with this library's settings, to merge others into.
pub fn new_corrected_target() -> (h: LatencyHistogram)
    ensures
        is_latency(h),
        total(hist_counts(h)) == 0,
        hist_counts(h) == no_counts(),
{
    let h: LatencyHistogram = hist_with_bounds(MIN_US, MAX_US, SIG_FIGS).unwrap();
    proof {
        assert(hist_counts(h) =~= no_counts());
        lemma_total_zero(hist_counts(h));
    }
    h
}

/// Every count can be encoded.
pub open spec fn encodable(counts: Seq<u64>) -> bool {
    forall|i: int| 0 <= i < counts.len() ==> counts[i] <= i64::MAX
}

/// `bytes` are the snapshot of a histogram with these settings and counts: its
/// encoding, which reads back as the same histogram, or nothing where a count
/// cannot be encoded.
pub open spec fn is_snapshot(bytes: Seq<u8>, layout: Layout, counts: Seq<u64>) -> bool {
    if encodable(counts) {
        &&& bytes == v2_bytes(layout, counts)
        &&& bytes.len() > 0
        &&& v2_read(bytes) == Some((layout, counts))
    } else {
        bytes.len() == 0
    }
}

/// What this library encodes can be handed to the decoder, which reads the same
/// histogram out of it.
pub proof fn law_snapshots_can_be_decoded(bytes: Seq<u8>, layout: Layout, counts: Seq<u64>)
    requires
        is_snapshot(bytes, layout, counts),
        encodable(counts),
    ensures
        v2::plain_form(bytes) matches Some(plain) && v2::decodable(plain) && plain_read(plain)
            == Some((layout, counts)),
{
}

/// The V2-deflate encoding of `h`; empty where a count cannot be encoded.
pub fn serialize_v2(h: &LatencyHistogram) -> (bytes: Vec<u8>)
    ensures
        is_snapshot(bytes@, hist_layout(*h), hist_counts(*h)),
{
    match hist_to_v2(h) {
        Some(bytes) => bytes,
        None => Vec::new(),
    }
}

/// The histogram that `bytes` encode, or `None` where they are empty or
/// malformed.
pub fn deserialize_v2(bytes: &[u8]) -> (r: Option<LatencyHistogram>)
    ensures
        r is Some <==> v2_read(bytes@) is Some,
        r matches Some(h) ==> v2_read(bytes@) == Some((hist_layout(h), hist_counts(h))),
        r matches Some(h) ==> (hist_layout(h) == latency_layout() ==> is_latency(h)),
        bytes@.len() == 0 ==> r is None,
{
    match v2::to_plain(bytes) {
        None => None,
        Some(plain) => {
            if v2::is_decodable(plain.as_slice()) {
                hist_from_plain(plain.as_slice())
            } else {
                None
            }
        },
    }
}

/// What a histogram with these settings and counts adds to the slots of a latency
/// histogram it is merged into, or `None` where its values do not fit there.
pub open spec fn recast(layout: Layout, counts: Seq<u64>) -> Option<Seq<u64>> {
    if layout == latency_layout() && counts.len() == LATENCY_SLOTS {
        Some(counts)
    } else {
        hist_recast(layout, counts)
    }
}

/// What the snapshot in `bytes` adds to the slots of a latency histogram, or
/// `None` where it is malformed or does not fit there.
pub open spec fn share(bytes: Seq<u8>) -> Option<Seq<u64>> {
    match v2_read(bytes) {
        Some((layout, counts)) => recast(layout, counts),
        None => None,
    }
}

/// The counts that the snapshot in `bytes` adds, none where it is malformed.
pub open spec fn snapshot_counts(bytes: Seq<u8>) -> Seq<u64> {
    match share(bytes) {
        Some(counts) => counts,
        None => no_counts(),
    }
}

/// How many values the snapshot in `bytes` adds.
pub open spec fn values_in(bytes: Seq<u8>) -> nat {
    match v2_read(bytes) {
        Some((layout, counts)) if recast(layout, counts) is Some => total(counts),
        _ => 0,
    }
}

/// Whether the snapshot in `bytes` can be merged into a latency histogram that
/// holds `values` values: it decodes, its values fit, and the values of the two
/// together can still be counted.
pub open spec fn mergeable(values: nat, bytes: Seq<u8>) -> bool {
    share(bytes) is Some && values + values_in(bytes) < u64::MAX
}

/// Merge the V2-deflate snapshot in `bytes` into `h`. Returns whether it was
/// merged; a missing or malformed snapshot leaves `h` as it was.
pub fn merge_snapshot(h: &mut LatencyHistogram, bytes: &[u8]) -> (ok: bool)
    requires
        is_latency(*old(h)),
        total(hist_counts(*old(h))) < u64::MAX,
    ensures
        is_latency(*final(h)),
        ok == mergeable(total(hist_counts(*old(h))), bytes@),
        ok ==> {
            &&& hist_counts(*final(h)) == summed(hist_counts(*old(h)), snapshot_counts(bytes@))
            &&& total(hist_counts(*final(h))) == total(hist_counts(*old(h))) + values_in(bytes@)
        },
        !ok ==> hist_counts(*final(h)) == hist_counts(*old(h)),
        total(hist_counts(*final(h))) < u64::MAX,
{
    match deserialize_v2(bytes) {
        None => false,
        Some(other) => merge_histogram(h, &other),
    }
}

/// Merge `other` into `h`, provided that its values fit and the values of the two
/// together can still be counted. Returns whether it was merged.
pub fn merge_histogram(h: &mut LatencyHistogram, other: &LatencyHistogram) -> (ok: bool)
    requires
        is_latency(*old(h)),
        total(hist_counts(*old(h))) < u64::MAX,
    ensures
        is_latency(*final(h)),
        ok == (recast(hist_layout(*other), hist_counts(*other)) is Some && total(
            hist_counts(*old(h)),
        ) + total(hist_counts(*other)) < u64::MAX),
        ok ==> {
            &&& hist_counts(*final(h)) == summed(
                hist_counts(*old(h)),
                recast(hist_layout(*other), hist_counts(*other))->0,
            )
            &&& total(hist_counts(*final(h))) == total(hist_counts(*old(h))) + total(
                hist_counts(*other),
            )
        },
        !ok ==> hist_counts(*final(h)) == hist_counts(*old(h)),
        total(hist_counts(*final(h))) < u64::MAX,
{
    let have: u64 = hist_len(h);
    let more: u64 = hist_len(other);
    if more < u64::MAX - have {
        let ok: bool = hist_add(h, other);
        proof {
            if ok {
                lemma_total_summed(
                    hist_counts(*old(h)),
                    recast(hist_layout(*other), hist_counts(*other))->0,
                );
            }
        }
        ok
    } else {
        false
    }
}

/// How many values merging the snapshots into an empty latency histogram, one
/// after the other, leaves there.
pub open spec fn values_over(snapshots: Seq<Seq<u8>>) -> nat
    decreases snapshots.len(),
{
    if snapshots.len() == 0 {
        0
    } else {
        let values = values_over(snapshots.drop_last());
        if mergeable(values, snapshots.last()) {
            values + values_in(snapshots.last())
        } else {
            values
        }
    }
}

/// What merging the snapshots into an empty latency histogram, one after the
/// other, leaves there, and whether any of them was merged. One that cannot be
/// merged changes nothing.
pub open spec fn merged_over(snapshots: Seq<Seq<u8>>) -> (Seq<u64>, bool)
    decreases snapshots.len(),
{
    if snapshots.len() == 0 {
        (no_counts(), false)
    } else {
        let (counts, any) = merged_over(snapshots.drop_last());
        if mergeable(values_over(snapshots.drop_last()), snapshots.last()) {
            (summed(counts, snapshot_counts(snapshots.last())), true)
        } else {
            (counts, any)
        }
    }
}

/// How many values the snapshots hold together.
pub open spec fn total_over(snapshots: Seq<Seq<u8>>) -> nat
    decreases snapshots.len(),
{
    if snapshots.len() == 0 {
        0
    } else {
        total_over(snapshots.drop_last()) + values_in(snapshots.last())
    }
}

/// The slot-by-slot sum of all the snapshots.
pub open spec fn summed_over(snapshots: Seq<Seq<u8>>) -> Seq<u64>
    decreases snapshots.len(),
{
    if snapshots.len() == 0 {
        no_counts()
    } else {
        summed(summed_over(snapshots.drop_last()), snapshot_counts(snapshots.last()))
    }
}

/// Some snapshot has a share in the merge.
pub open spec fn any_share(snapshots: Seq<Seq<u8>>) -> bool
    decreases snapshots.len(),
{
    snapshots.len() > 0 && (any_share(snapshots.drop_last()) || share(snapshots.last()) is Some)
}

/// Merging snapshots loses nothing, as long as their values can be counted
/// together: it leaves their slot-by-slot sum, to which a malformed one adds
/// nothing, and something was merged if any snapshot could be.
pub proof fn law_merging_loses_nothing(snapshots: Seq<Seq<u8>>)
    requires
        total_over(snapshots) < u64::MAX,
    ensures
        merged_over(snapshots) == (summed_over(snapshots), any_share(snapshots)),
        values_over(snapshots) == total_over(snapshots),
        summed_over(snapshots).len() == LATENCY_SLOTS,
    decreases snapshots.len(),
{
    if snapshots.len() > 0 {
        law_merging_loses_nothing(snapshots.drop_last());
        let before = summed_over(snapshots.drop_last());
        assert(summed(before, no_counts()) =~= before);
    }
}

/// A snapshot adds the same wherever among the others it comes.
pub proof fn lemma_over_remove(snapshots: Seq<Seq<u8>>, at: int)
    requires
        0 <= at < snapshots.len(),
    ensures
        summed_over(snapshots) == summed(
            summed_over(snapshots.remove(at)),
            snapshot_counts(snapshots[at]),
        ),
        total_over(snapshots) == total_over(snapshots.remove(at)) + values_in(snapshots[at]),
        any_share(snapshots) == (any_share(snapshots.remove(at)) || share(snapshots[at]) is Some),
    decreases snapshots.len(),
{
    if at == snapshots.len() - 1 {
        assert(snapshots.remove(at) =~= snapshots.drop_last());
    } else {
        let rest = snapshots.drop_last();
        lemma_over_remove(rest, at);
        assert(snapshots.remove(at).drop_last() =~= rest.remove(at));
        let a = summed_over(rest.remove(at));
        let b = snapshot_counts(snapshots[at]);
        let c = snapshot_counts(snapshots.last());
        assert(summed(summed(a, b), c) =~= summed(summed(a, c), b));
    }
}

/// Several snapshots being merged into one histogram.
pub struct SnapshotMerge {
    hist: LatencyHistogram,
    any: bool,
    seen: Ghost<Seq<Seq<u8>>>,
}

impl SnapshotMerge {
    /// The snapshots merged so far.
    pub closed spec fn seen(self) -> Seq<Seq<u8>> {
        self.seen@
    }

    /// The histogram holds what merging the snapshots leaves.
    pub closed spec fn wf(self) -> bool {
        &&& is_latency(self.hist)
        &&& total(hist_counts(self.hist)) < u64::MAX
        &&& total(hist_counts(self.hist)) == values_over(self.seen@)
        &&& (hist_counts(self.hist), self.any) == merged_over(self.seen@)
    }

    pub fn new() -> (m: Self)
        ensures
            m.wf(),
            m.seen() == Seq::<Seq<u8>>::empty(),
    {
        SnapshotMerge { hist: new_corrected_target(), any: false, seen: Ghost(Seq::empty()) }
    }

    /// Merge one more snapshot; a missing or malformed one is left out.
    pub fn merge(&mut self, bytes: &[u8])
        requires
            old(self).wf(),
        ensures
            final(self).wf(),
            final(self).seen() == old(self).seen().push(bytes@),
    {
        let ghost before = self.seen@;
        let ok: bool = merge_snapshot(&mut self.hist, bytes);
        if ok {
            self.any = true;
        }
        self.seen = Ghost(before.push(bytes@));
        assert(before.push(bytes@).drop_last() =~= before);
    }

    /// The percentiles asked for, in thousandths, or 0 where nothing was merged.
    pub fn percentile(&self, per_mille: u32) -> (v: u64)
        requires
            self.wf(),
            per_mille <= 999,
        ensures
            v == if merged_over(self.seen()).1 {
                hist_quantile(latency_layout(), merged_over(self.seen()).0, per_mille as nat)
            } else {
                0
            },
            forall|q: nat|
                q <= per_mille && merged_over(self.seen()).1 ==> #[trigger] hist_quantile(
                    latency_layout(),
                    merged_over(self.seen()).0,
                    q,
                ) <= v,
    {
        if self.any {
            hist_value_at(&self.hist, per_mille)
        } else {
            0
        }
    }

    /// The snapshot of what was merged; empty where nothing was.
    pub fn snapshot(&self) -> (bytes: Vec<u8>)
        requires
            self.wf(),
        ensures
            merged_over(self.seen()).1 ==> is_snapshot(
                bytes@,
                latency_layout(),
                merged_over(self.seen()).0,
            ),
            !merged_over(self.seen()).1 ==> bytes@.len() == 0,
    {
        if self.any {
            serialize_v2(&self.hist)
        } else {
            Vec::new()
        }
    }
}

/// Whether the values in `h` can be counted.
pub fn is_countable(h: &LatencyHistogram) -> (b: bool)
    ensures
        b == (total(hist_counts(*h)) < u64::MAX),
{
    hist_len(h) < u64::MAX
}

/// The value at a quantile, in thousandths, of a histogram whose values can be
/// counted.
pub fn value_at_quantile(h: &LatencyHistogram, per_mille: u32) -> (v: u64)
    requires
        per_mille <= 999,
        total(hist_counts(*h)) <= u64::MAX,
    ensures
        v == hist_quantile(hist_layout(*h), hist_counts(*h), per_mille as nat),
        total(hist_counts(*h)) == 0 ==> v == 0,
        forall|q: nat|
            q <= per_mille ==> #[trigger] hist_quantile(hist_layout(*h), hist_counts(*h), q) <= v,
        is_latency(*h) ==> v <= top_in_use(hist_counts(*h)),
{
    hist_value_at(h, per_mille)
}

/// One stream's pair of histograms: latency from the intended send time
/// (corrected) and from the actual send time (uncorrected).
#[derive(Debug)]
pub struct Histos {
    pub corrected: LatencyHistogram,
    pub uncorrected: LatencyHistogram,
}

impl Histos {
    /// Both histograms have this library's settings, hold equally many values,
    /// and can count them.
    pub open spec fn wf(self) -> bool {
        &&& is_latency(self.corrected)
        &&& is_latency(self.uncorrected)
        &&& total(hist_counts(self.corrected)) == total(hist_counts(self.uncorrected))
        &&& total(hist_counts(self.corrected)) < u64::MAX
    }

    /// How many responses were recorded.
    pub open spec fn recorded(self) -> nat {
        total(hist_counts(self.corrected))
    }

    /// Rank for rank, the corrected latencies are no smaller than the
    /// uncorrected ones.
    pub open spec fn ordered(self) -> bool {
        dominated(hist_counts(self.uncorrected), hist_counts(self.corrected))
    }

    /// `after` holds one response more, with these latencies.
    pub open spec fn records(self, corrected_us: u64, uncorrected_us: u64, after: Histos) -> bool {
        &&& hist_counts(after.corrected) == bumped(
            hist_counts(self.corrected),
            slot_of(in_range(corrected_us) as nat) as int,
        )
        &&& hist_counts(after.uncorrected) == bumped(
            hist_counts(self.uncorrected),
            slot_of(in_range(uncorrected_us) as nat) as int,
        )
    }

    /// `after` holds what the two hold together.
    pub open spec fn merges(self, other: Histos, after: Histos) -> bool {
        &&& hist_counts(after.corrected) == summed(
            hist_counts(self.corrected),
            hist_counts(other.corrected),
        )
        &&& hist_counts(after.uncorrected) == summed(
            hist_counts(self.uncorrected),
            hist_counts(other.uncorrected),
        )
    }

    pub fn new() -> (h: Self)
        ensures
            h.wf(),
            h.recorded() == 0,
            h.ordered(),
            hist_counts(h.corrected) == no_counts(),
            hist_counts(h.uncorrected) == no_counts(),
    {
        Histos { corrected: new_corrected_target(), uncorrected: new_corrected_target() }
    }

    /// Record one response. A latency outside the range counts as the nearest
    /// one inside, so none is dropped.
    pub fn record(&mut self, corrected_us: u64, uncorrected_us: u64)
        requires
            old(self).wf(),
            old(self).recorded() + 1 < u64::MAX,
        ensures
            final(self).wf(),
            final(self).recorded() == old(self).recorded() + 1,
            old(self).ordered() && corrected_us >= uncorrected_us ==> final(self).ordered(),
            old(self).records(corrected_us, uncorrected_us, *final(self)),
    {
        let c: u64 = clamp_us(corrected_us);
        let u: u64 = clamp_us(uncorrected_us);
        proof {
            lemma_slot_in_range(c as nat);
            lemma_slot_in_range(u as nat);
            lemma_total_bumped(hist_counts(self.corrected), slot_of(c as nat) as int);
            lemma_total_bumped(hist_counts(self.uncorrected), slot_of(u as nat) as int);
            if old(self).ordered() && corrected_us >= uncorrected_us {
                lemma_slot_monotone(u as nat, c as nat);
                lemma_dominated_bumped(
                    hist_counts(self.uncorrected),
                    slot_of(u as nat) as int,
                    hist_counts(self.corrected),
                    slot_of(c as nat) as int,
                );
            }
        }
        let _ = hist_record(&mut self.corrected, c);
        let _ = hist_record(&mut self.uncorrected, u);
    }

    /// Add everything that `other` recorded.
    pub fn merge(&mut self, other: &Histos)
        requires
            old(self).wf(),
            other.wf(),
            old(self).recorded() + other.recorded() < u64::MAX,
        ensures
            final(self).wf(),
            final(self).recorded() == old(self).recorded() + other.recorded(),
            old(self).ordered() && other.ordered() ==> final(self).ordered(),
            old(self).merges(*other, *final(self)),
    {
        proof {
            lemma_total_summed(hist_counts(self.corrected), hist_counts(other.corrected));
            lemma_total_summed(hist_counts(self.uncorrected), hist_counts(other.uncorrected));
            if self.ordered() && other.ordered() {
                lemma_dominated_summed(
                    hist_counts(self.uncorrected),
                    hist_counts(self.corrected),
                    hist_counts(other.uncorrected),
                    hist_counts(other.corrected),
                );
            }
        }
        let _ = hist_add(&mut self.corrected, &other.corrected);
        let _ = hist_add(&mut self.uncorrected, &other.uncorrected);
    }
}

impl Clone for Histos {
    fn clone(&self) -> (h: Self)
        ensures
            self.wf() ==> h.wf(),
            hist_layout(h.corrected) == hist_layout(self.corrected),
            hist_counts(h.corrected) == hist_counts(self.corrected),
            hist_layout(h.uncorrected) == hist_layout(self.uncorrected),
            hist_counts(h.uncorrected) == hist_counts(self.uncorrected),
    {
        Histos { corrected: self.corrected.clone(), uncorrected: self.uncorrected.clone() }
    }
}

impl Default for Histos {
    fn default() -> (h: Self)
        ensures
            h.wf(),
            h.recorded() == 0,
            h.ordered(),
            hist_counts(h.corrected) == no_counts(),
            hist_counts(h.uncorrected) == no_counts(),
    {
        Histos::new()
    }
}

/// `value` brought into the recorded range.
fn clamp_us(value: u64) -> (r: u64)
    ensures
        r == in_range(value),
{
    if value < MIN_US {
        MIN_US
    } else if value > MAX_US {
        MAX_US
    } else {
        value
    }
}

/// A histogram's summary.
#[derive(Debug, Clone, Copy, PartialEq, Eq, Structural)]
pub struct Summary {
    pub count: u64,
    pub p50_us: u64,
    pub p95_us: u64,
    pub p99_us: u64,
    pub p999_us: u64,
    pub max_us: u64,
}

impl Summary {
    /// The summary of a histogram with these settings and counts.
    pub open spec fn of(layout: Layout, counts: Seq<u64>) -> Summary {
        Summary {
            count: total(counts) as u64,
            p50_us: hist_quantile(layout, counts, 500),
            p95_us: hist_quantile(layout, counts, 950),
            p99_us: hist_quantile(layout, counts, 990),
            p999_us: hist_quantile(layout, counts, 999),
            max_us: hist_max(layout, counts),
        }
    }

    /// Summarise `h`.
    pub fn from(h: &LatencyHistogram) -> (s: Self)
        requires
            total(hist_counts(*h)) <= u64::MAX,
        ensures
            s == Summary::of(hist_layout(*h), hist_counts(*h)),
            s.p50_us <= s.p95_us <= s.p99_us <= s.p999_us,
            is_latency(*h) ==> s.p999_us <= s.max_us && s.max_us == top_in_use(hist_counts(*h)),
            s.count == 0 ==> s.p999_us == 0,
            forall|low: Seq<u64>| #[trigger]
                dominated(low, hist_counts(*h)) ==> s.percentiles_at_least(
                    Summary::of(hist_layout(*h), low),
                ),
    {
        Summary {
            count: hist_len(h),
            p50_us: hist_value_at(h, 500),
            p95_us: hist_value_at(h, 950),
            p99_us: hist_value_at(h, 990),
            p999_us: hist_value_at(h, 999),
            max_us: hist_largest(h),
        }
    }

    /// Whether every percentile of `self` is at least that of `other`, the
    /// maximum apart.
    pub open spec fn percentiles_at_least(self, other: Summary) -> bool {
        &&& self.p50_us >= other.p50_us
        &&& self.p95_us >= other.p95_us
        &&& self.p99_us >= other.p99_us
        &&& self.p999_us >= other.p999_us
    }
}

/// The largest value that a latency histogram with `k` doublings beyond the
/// first 2048 values can hold, plus one.
spec fn limit(k: nat) -> nat
    decreases k,
{
    if k == 0 {
        2048
    } else {
        2 * limit((k - 1) as nat)
    }
}

proof fn lemma_slot_bound(value: nat, k: nat)
    requires
        value < limit(k),
    ensures
        slot_of(value) < 2048 + 1024 * k,
    decreases k,
{
    if value >= 2048 {
        assert(k > 0);
        lemma_slot_bound(value / 2, (k - 1) as nat);
    }
}

proof fn lemma_slot_in_range(value: nat)
    requires
        value < LATENCY_LIMIT,
    ensures
        slot_of(value) < LATENCY_SLOTS,
{
    reveal_with_fuel(limit, 17);
    lemma_slot_bound(value, 15);
}

proof fn lemma_total_bumped(counts: Seq<u64>, slot: int)
    requires
        0 <= slot < counts.len(),
        total(counts) < u64::MAX,
    ensures
        total(bumped(counts, slot)) == total(counts) + 1,
        counts[slot] < u64::MAX,
    decreases counts.len(),
{
    let after = bumped(counts, slot);
    if slot == counts.len() - 1 {
        assert(after.drop_last() =~= counts.drop_last());
    } else {
        lemma_total_bumped(counts.drop_last(), slot);
        assert(after.drop_last() =~= bumped(counts.drop_last(), slot));
    }
}

proof fn lemma_slot_monotone(a: nat, b: nat)
    requires
        a <= b,
    ensures
        slot_of(a) <= slot_of(b),
    decreases b,
{
    if a >= 2048 {
        lemma_slot_monotone(a / 2, b / 2);
    } else if b >= 2048 {
        lemma_slot_at_least(b);
    }
}

proof fn lemma_slot_at_least(value: nat)
    requires
        value >= 2048,
    ensures
        slot_of(value) >= 2048,
    decreases value,
{
    reveal_with_fuel(slot_of, 2);
    if value / 2 >= 2048 {
        lemma_slot_at_least(value / 2);
    }
}

proof fn lemma_prefix_bumped(counts: Seq<u64>, slot: int, k: int)
    requires
        0 <= slot < counts.len(),
        0 <= k <= counts.len(),
        total(counts) < u64::MAX,
    ensures
        prefix(bumped(counts, slot), k) == prefix(counts, k) + if slot < k {
            1nat
        } else {
            0
        },
{
    lemma_total_bumped(counts, slot);
    if slot < k {
        lemma_prefix_at_most_total(counts, k);
        lemma_total_bumped(counts.take(k), slot);
        assert(bumped(counts, slot).take(k) =~= bumped(counts.take(k), slot));
    } else {
        assert(bumped(counts, slot).take(k) =~= counts.take(k));
    }
}

proof fn lemma_prefix_at_most_total(counts: Seq<u64>, k: int)
    requires
        0 <= k <= counts.len(),
    ensures
        prefix(counts, k) <= total(counts),
    decreases counts.len(),
{
    if k == counts.len() {
        assert(counts.take(k) =~= counts);
    } else {
        lemma_prefix_at_most_total(counts.drop_last(), k);
        assert(counts.drop_last().take(k) =~= counts.take(k));
    }
}

proof fn lemma_dominated_bumped(low: Seq<u64>, s: int, high: Seq<u64>, t: int)
    requires
        dominated(low, high),
        0 <= s <= t < low.len(),
        total(low) < u64::MAX,
    ensures
        dominated(bumped(low, s), bumped(high, t)),
{
    lemma_total_bumped(low, s);
    lemma_total_bumped(high, t);
    assert forall|k: int| 0 <= k <= low.len() implies #[trigger] prefix(bumped(low, s), k)
        >= prefix(bumped(high, t), k) by {
        lemma_prefix_bumped(low, s, k);
        lemma_prefix_bumped(high, t, k);
    }
}

proof fn lemma_count_at_most_total(counts: Seq<u64>, i: int)
    requires
        0 <= i < counts.len(),
    ensures
        counts[i] <= total(counts),
    decreases counts.len(),
{
    if i < counts.len() - 1 {
        lemma_count_at_most_total(counts.drop_last(), i);
    }
}

proof fn lemma_total_summed(a: Seq<u64>, b: Seq<u64>)
    requires
        a.len() == b.len(),
        total(a) + total(b) <= u64::MAX,
    ensures
        total(summed(a, b)) == total(a) + total(b),
        forall|i: int| 0 <= i < a.len() ==> #[trigger] summed(a, b)[i] == a[i] + b[i],
    decreases a.len(),
{
    assert forall|i: int| 0 <= i < a.len() implies #[trigger] summed(a, b)[i] == a[i] + b[i] by {
        lemma_count_at_most_total(a, i);
        lemma_count_at_most_total(b, i);
    }
    if a.len() > 0 {
        lemma_total_summed(a.drop_last(), b.drop_last());
        assert(summed(a, b).drop_last() =~= summed(a.drop_last(), b.drop_last()));
    }
}

proof fn lemma_dominated_summed(low: Seq<u64>, high: Seq<u64>, more_low: Seq<u64>, more_high: Seq<u64>)
    requires
        dominated(low, high),
        dominated(more_low, more_high),
        low.len() == more_low.len(),
        total(low) + total(more_low) <= u64::MAX,
    ensures
        dominated(summed(low, more_low), summed(high, more_high)),
{
    lemma_total_summed(low, more_low);
    lemma_total_summed(high, more_high);
    assert forall|k: int| 0 <= k <= low.len() implies #[trigger] prefix(summed(low, more_low), k)
        >= prefix(summed(high, more_high), k) by {
        lemma_prefix_at_most_total(low, k);
        lemma_prefix_at_most_total(more_low, k);
        lemma_prefix_at_most_total(high, k);
        lemma_prefix_at_most_total(more_high, k);
        lemma_total_summed(low.take(k), more_low.take(k));
        lemma_total_summed(high.take(k), more_high.take(k));
        assert(summed(low, more_low).take(k) =~= summed(low.take(k), more_low.take(k)));
        assert(summed(high, more_high).take(k) =~= summed(high.take(k), more_high.take(k)));
        assert(prefix(low, k) >= prefix(high, k));
        assert(prefix(more_low, k) >= prefix(more_high, k));
    }
}

/// How many of `values` fall into slot `slot`.
pub open spec fn hits(values: Seq<u64>, slot: int) -> nat
    decreases values.len(),
{
    if values.len() == 0 {
        0
    } else if slot_of(in_range(values.last()) as nat) == slot {
        hits(values.drop_last(), slot) + 1
    } else {
        hits(values.drop_last(), slot)
    }
}

/// A latency histogram with these counts holds exactly these values.
pub open spec fn holds(counts: Seq<u64>, values: Seq<u64>) -> bool {
    &&& counts.len() == LATENCY_SLOTS
    &&& forall|i: int| 0 <= i < counts.len() ==> #[trigger] counts[i] == hits(values, i)
}

/// An empty histogram holds nothing, and recording a value into one that holds
/// `values` leaves one that holds them and the value.
pub proof fn law_recording_adds_the_value(counts: Seq<u64>, values: Seq<u64>, value: u64)
    requires
        holds(counts, values),
        total(counts) < u64::MAX,
    ensures
        holds(no_counts(), Seq::empty()),
        holds(bumped(counts, slot_of(in_range(value) as nat) as int), values.push(value)),
{
    let slot = slot_of(in_range(value) as nat) as int;
    lemma_slot_in_range(in_range(value) as nat);
    lemma_total_bumped(counts, slot);
    assert(values.push(value).drop_last() =~= values);
}

proof fn lemma_hits_concat(a: Seq<u64>, b: Seq<u64>, slot: int)
    ensures
        hits(a + b, slot) == hits(a, slot) + hits(b, slot),
    decreases b.len(),
{
    if b.len() == 0 {
        assert(a + b =~= a);
    } else {
        lemma_hits_concat(a, b.drop_last(), slot);
        assert((a + b).drop_last() =~= a + b.drop_last());
    }
}

/// Merging loses nothing: the slot-by-slot sum of two histograms is the
/// histogram of all their values.
pub proof fn law_merge_holds_every_value(a: Seq<u64>, va: Seq<u64>, b: Seq<u64>, vb: Seq<u64>)
    requires
        holds(a, va),
        holds(b, vb),
        total(a) + total(b) <= u64::MAX,
    ensures
        holds(summed(a, b), va + vb),
{
    lemma_total_summed(a, b);
    assert forall|i: int| 0 <= i < a.len() implies #[trigger] summed(a, b)[i] == hits(va + vb, i) by {
        lemma_hits_concat(va, vb, i);
    }
}

proof fn lemma_hits_remove(values: Seq<u64>, at: int, slot: int)
    requires
        0 <= at < values.len(),
    ensures
        hits(values, slot) == hits(values.remove(at), slot) + if slot_of(in_range(values[at]) as nat)
            == slot {
            1nat
        } else {
            0
        },
{
    let front = values.take(at);
    let back = values.skip(at + 1);
    assert(values =~= front.push(values[at]) + back);
    assert(values.remove(at) =~= front + back);
    assert(front.push(values[at]).drop_last() =~= front);
    lemma_hits_concat(front.push(values[at]), back, slot);
    lemma_hits_concat(front, back, slot);
}

proof fn lemma_hits_same_values(a: Seq<u64>, b: Seq<u64>, slot: int)
    requires
        a.to_multiset() == b.to_multiset(),
    ensures
        hits(a, slot) == hits(b, slot),
    decreases a.len(),
{
    broadcast use vstd::seq_lib::group_to_multiset_ensures;
    assert(a.len() == a.to_multiset().len() && b.len() == b.to_multiset().len());
    if a.len() > 0 {
        let v = a.last();
        assert(a.to_multiset().count(v) > 0) by {
            assert(a.contains(v));
        }
        assert(b.contains(v));
        let at = choose|at: int| 0 <= at < b.len() && b[at] == v;
        lemma_hits_remove(b, at, slot);
        lemma_hits_remove(a, a.len() - 1, slot);
        assert(a.remove(a.len() - 1) =~= a.drop_last());
        assert(a.drop_last().to_multiset() =~= b.remove(at).to_multiset());
        lemma_hits_same_values(a.drop_last(), b.remove(at), slot);
    }
}

/// Half plus half equals full: splitting the values of one histogram between
/// two, in any order, and merging the two gives back the same counts, and with
/// them the same summary.
pub proof fn law_half_plus_half_equals_full(
    a: Seq<u64>,
    va: Seq<u64>,
    b: Seq<u64>,
    vb: Seq<u64>,
    full: Seq<u64>,
    values: Seq<u64>,
)
    requires
        holds(a, va),
        holds(b, vb),
        holds(full, values),
        total(a) + total(b) <= u64::MAX,
        (va + vb).to_multiset() == values.to_multiset(),
    ensures
        summed(a, b) == full,
        Summary::of(latency_layout(), summed(a, b)) == Summary::of(latency_layout(), full),
{
    law_merge_holds_every_value(a, va, b, vb);
    let m = summed(a, b);
    assert forall|i: int| 0 <= i < m.len() implies m[i] == full[i] by {
        lemma_hits_same_values(va + vb, values, i);
        assert(m[i] == hits(va + vb, i));
        assert(full[i] == hits(values, i));
    }
    assert(m =~= full);
}

/// All lists in a row.
pub open spec fn in_a_row(lists: Seq<Seq<u64>>) -> Seq<u64>
    decreases lists.len(),
{
    if lists.len() == 0 {
        Seq::empty()
    } else {
        in_a_row(lists.drop_last()) + lists.last()
    }
}

/// A fleet's merged histogram holds every value that any of its workers recorded:
/// where the `i`-th snapshot is of a histogram that holds `values[i]`, what merging
/// the snapshots leaves holds all of them, and nothing else. A malformed snapshot
/// takes no other one's values with it.
pub proof fn law_merged_snapshots_hold_every_value(
    snapshots: Seq<Seq<u8>>,
    values: Seq<Seq<u64>>,
)
    requires
        snapshots.len() == values.len(),
        total_over(snapshots) < u64::MAX,
        forall|i: int|
            0 <= i < snapshots.len() ==> match v2_read(#[trigger] snapshots[i]) {
                Some((layout, counts)) => layout == latency_layout() && holds(counts, values[i]),
                None => values[i].len() == 0,
            },
    ensures
        holds(merged_over(snapshots).0, in_a_row(values)),
        total(merged_over(snapshots).0) == total_over(snapshots),
    decreases snapshots.len(),
{
    law_merging_loses_nothing(snapshots);
    lemma_total_zero(no_counts());
    if snapshots.len() > 0 {
        let rest = snapshots.drop_last();
        let n = snapshots.len() - 1;
        assert forall|i: int| 0 <= i < rest.len() implies match v2_read(#[trigger] rest[i]) {
            Some((layout, counts)) => layout == latency_layout() && holds(
                counts,
                values.drop_last()[i],
            ),
            None => values.drop_last()[i].len() == 0,
        } by {
            assert(rest[i] == snapshots[i]);
        }
        law_merged_snapshots_hold_every_value(rest, values.drop_last());
        law_merging_loses_nothing(rest);
        assert(snapshots[n] == snapshots.last());
        let last = snapshot_counts(snapshots[n]);
        assert(holds(last, values[n]) && total(last) == values_in(snapshots[n]));
        law_merge_holds_every_value(
            summed_over(rest),
            in_a_row(values.drop_last()),
            last,
            values[n],
        );
        lemma_total_summed(summed_over(rest), last);
    }
}

/// Merging does not depend on the order of its operands.
pub proof fn law_merge_commutes(a: Seq<u64>, b: Seq<u64>, c: Seq<u64>)
    requires
        a.len() == b.len() == c.len(),
    ensures
        summed(a, b) == summed(b, a),
        summed(summed(a, b), c) == summed(a, summed(b, c)),
{
    assert(summed(a, b) =~= summed(b, a));
    assert(summed(summed(a, b), c) =~= summed(a, summed(b, c)));
}

proof fn lemma_total_zero(counts: Seq<u64>)
    requires
        forall|i: int| 0 <= i < counts.len() ==> counts[i] == 0,
    ensures
        total(counts) == 0,
    decreases counts.len(),
{
    if counts.len() > 0 {
        lemma_total_zero(counts.drop_last());
    }
}

/// A latency is recorded as itself from one microsecond to a minute, and one outside
/// that range as the nearest end of it.
pub proof fn law_latencies_are_recorded_within_the_range(value: u64)
    ensures
        1 <= value <= 60_000_000 ==> in_range(value) == value,
        value == 0 ==> in_range(value) == 1,
        value > 60_000_000 ==> in_range(value) == 60_000_000,
        latency_layout() == (1u64, 60_000_000u64, 3u8),
{
}

/// A slot stands for its values to three significant digits: up to 2047 every value
/// has a slot of its own, and beyond that the largest value of a slot exceeds any
/// other value in it by less than one part in 1024.
pub proof fn law_slots_keep_three_digits(value: nat)
    ensures
        slot_top(slot_of(value)) >= value,
        value < 2048 ==> slot_top(slot_of(value)) == value,
        value >= 1024 ==> 1024 * (slot_top(slot_of(value)) - value + 1) <= value,
    decreases value,
{
    if value >= 2048 {
        law_slots_keep_three_digits(value / 2);
        lemma_slot_at_least(value);
    }
}

/// Values that share a slot share their neighbourhood: the slots keep the order of
/// the values.
pub proof fn law_slots_keep_the_order(a: nat, b: nat)
    requires
        a <= b,
    ensures
        slot_of(a) <= slot_of(b),
        slot_of(a) < slot_of(b) ==> a < b,
{
    lemma_slot_monotone(a, b);
}

/// The largest latency of a summary is that of the highest slot in use, and nothing
/// above it is.
pub proof fn law_the_maximum_is_the_highest_slot_in_use(counts: Seq<u64>, i: int)
    requires
        0 <= i < counts.len(),
        counts[i] > 0,
        forall|j: int| i < j < counts.len() ==> counts[j] == 0,
    ensures
        top_in_use(counts) == slot_top(i as nat),
    decreases counts.len(),
{
    if counts.last() == 0 {
        let rest = counts.drop_last();
        assert(counts[counts.len() - 1] == 0);
        assert forall|j: int| i < j < rest.len() implies rest[j] == 0 by {
            assert(counts[j] == 0);
        }
        law_the_maximum_is_the_highest_slot_in_use(rest, i);
    }
}

/// A summary gives the 50th, 95th, 99th and 99.9th percentile, the maximum and the
/// number of values of one and the same histogram.
pub proof fn law_a_summary_gives_its_percentiles(layout: Layout, counts: Seq<u64>)
    requires
        total(counts) <= u64::MAX,
    ensures
        Summary::of(layout, counts).count == total(counts),
        Summary::of(layout, counts).p50_us == hist_quantile(layout, counts, 500),
        Summary::of(layout, counts).p95_us == hist_quantile(layout, counts, 950),
        Summary::of(layout, counts).p99_us == hist_quantile(layout, counts, 990),
        Summary::of(layout, counts).p999_us == hist_quantile(layout, counts, 999),
        Summary::of(layout, counts).max_us == hist_max(layout, counts),
{
}

/// Every response is in both histograms, its corrected latency in the one and its
/// uncorrected latency in the other.
pub proof fn law_a_response_goes_into_both_histograms(
    before: Histos,
    after: Histos,
    corrected_us: u64,
    uncorrected_us: u64,
    corrected: Seq<u64>,
    uncorrected: Seq<u64>,
)
    requires
        before.wf(),
        before.records(corrected_us, uncorrected_us, after),
        holds(hist_counts(before.corrected), corrected),
        holds(hist_counts(before.uncorrected), uncorrected),
    ensures
        holds(hist_counts(after.corrected), corrected.push(corrected_us)),
        holds(hist_counts(after.uncorrected), uncorrected.push(uncorrected_us)),
{
    law_recording_adds_the_value(hist_counts(before.corrected), corrected, corrected_us);
    law_recording_adds_the_value(hist_counts(before.uncorrected), uncorrected, uncorrected_us);
}

/// Merging two pairs of histograms puts corrected latencies with corrected ones and
/// uncorrected with uncorrected, and loses none.
pub proof fn law_merged_pairs_hold_every_value(
    a: Histos,
    b: Histos,
    after: Histos,
    corrected: (Seq<u64>, Seq<u64>),
    uncorrected: (Seq<u64>, Seq<u64>),
)
    requires
        a.merges(b, after),
        total(hist_counts(a.corrected)) + total(hist_counts(b.corrected)) <= u64::MAX,
        total(hist_counts(a.uncorrected)) + total(hist_counts(b.uncorrected)) <= u64::MAX,
        holds(hist_counts(a.corrected), corrected.0),
        holds(hist_counts(b.corrected), corrected.1),
        holds(hist_counts(a.uncorrected), uncorrected.0),
        holds(hist_counts(b.uncorrected), uncorrected.1),
    ensures
        holds(hist_counts(after.corrected), corrected.0 + corrected.1),
        holds(hist_counts(after.uncorrected), uncorrected.0 + uncorrected.1),
{
    law_merge_holds_every_value(
        hist_counts(a.corrected),
        corrected.0,
        hist_counts(b.corrected),
        corrected.1,
    );
    law_merge_holds_every_value(
        hist_counts(a.uncorrected),
        uncorrected.0,
        hist_counts(b.uncorrected),
        uncorrected.1,
    );
}

/// Few enough values can always be encoded.
pub proof fn lemma_held_is_encodable(counts: Seq<u64>, values: Seq<u64>)
    requires
        holds(counts, values),
        values.len() <= i64::MAX,
    ensures
        encodable(counts),
{
    assert forall|i: int| 0 <= i < counts.len() implies counts[i] <= i64::MAX by {
        lemma_hits_at_most_all(values, i);
        assert(counts[i] == hits(values, i));
    }
}

proof fn lemma_hits_at_most_all(values: Seq<u64>, slot: int)
    ensures
        hits(values, slot) <= values.len(),
    decreases values.len(),
{
    if values.len() > 0 {
        lemma_hits_at_most_all(values.drop_last(), slot);
    }
}

/// A histogram of few enough values can always be encoded.
pub proof fn lemma_total_is_encodable(counts: Seq<u64>)
    requires
        total(counts) <= i64::MAX,
    ensures
        encodable(counts),
{
    assert forall|i: int| 0 <= i < counts.len() implies counts[i] <= i64::MAX by {
        lemma_count_at_most_total(counts, i);
    }
}

/// The values settle the histogram: two latency histograms that hold the same values
/// have the same counts.
pub proof fn law_values_settle_the_counts(a: Seq<u64>, b: Seq<u64>, values: Seq<u64>)
    requires
        holds(a, values),
        holds(b, values),
    ensures
        a == b,
{
    assert forall|i: int| 0 <= i < a.len() implies a[i] == b[i] by {
        assert(a[i] == hits(values, i));
        assert(b[i] == hits(values, i));
    }
    assert(a =~= b);
}

/// Snapshots that cannot be read leave nothing.
pub proof fn lemma_nothing_merged(snapshots: Seq<Seq<u8>>)
    requires
        forall|i: int| 0 <= i < snapshots.len() ==> v2_read(#[trigger] snapshots[i]) is None,
    ensures
        merged_over(snapshots) == (no_counts(), false),
    decreases snapshots.len(),
{
    if snapshots.len() > 0 {
        let rest = snapshots.drop_last();
        assert forall|i: int| 0 <= i < rest.len() implies v2_read(#[trigger] rest[i]) is None by {
            assert(rest[i] == snapshots[i]);
        }
        lemma_nothing_merged(rest);
        assert(v2_read(snapshots[snapshots.len() - 1]) is None);
    }
}

} // verus!

//! The mock target as an oracle: what it injects is what a run reports.
//!
//! The mock knows which of its responses are wrong, and how. These laws hold the
//! verdicts of a run's inline assertions against that knowledge.

use vstd::prelude::*;

use crate::mock::{self, Decision, Mode, Params};
use crate::tally::{Counts, Verdict};
use crate::worker::InlineAssert;

verus! {

/// The verdict on the mock's answer `d` when its corrected latency was
/// `corrected_us`. The mock's bodies are ASCII, so they are as many bytes long as
/// they have characters.
pub open spec fn judged(rules: InlineAssert, d: Decision, corrected_us: u64) -> Verdict {
    rules.verdict(d.status, corrected_us, d.body@.len() as u64, Some("application/json"@))
}

/// The rules ask for nothing but a status of 200 or any 2xx.
pub open spec fn status_alone(rules: InlineAssert) -> bool {
    &&& rules.expected_status@.len() == 0 || rules.expected_status@ == seq![200u16]
    &&& rules.max_latency_us is None
    &&& rules.min_body_bytes is None
    &&& rules.max_body_bytes is None
    &&& rules.content_type_lc_prefix is None
}

/// A healthy answer passes the status tier, and so does every answer whose fault
/// lies elsewhere; a server error fails it, and a rate-limit response is neither.
pub proof fn law_status_tier_tells_the_injected_answers(
    rules: InlineAssert,
    d: Decision,
    p: Params,
    rps: u64,
    seq: u64,
    corrected_us: u64,
)
    requires
        status_alone(rules),
        mock::decides(d, p, rps, seq),
    ensures
        judged(rules, d, corrected_us) == if d.injected && p.mode == Mode::Fast500 {
            Verdict::FailStatus
        } else if d.injected && p.mode == Mode::Ratelimit {
            Verdict::RateLimited
        } else {
            Verdict::Pass
        },
{
    if rules.expected_status@.len() > 0 {
        assert(seq![200u16][0] == 200);
        assert(rules.expected_status@.contains(200u16));
        assert(!rules.expected_status@.contains(500u16));
    }
}

/// An answer cut short fails the size tier of rules that ask for the healthy
/// body's length, and the healthy answer passes it.
pub proof fn law_size_tier_tells_the_truncated_answers(
    rules: InlineAssert,
    d: Decision,
    p: Params,
    rps: u64,
    seq: u64,
    corrected_us: u64,
)
    requires
        rules.expected_status@.len() == 0,
        rules.max_latency_us is None,
        rules.min_body_bytes == Some(mock::HEALTHY_BODY@.len() as u64),
        rules.max_body_bytes is None,
        rules.content_type_lc_prefix is None,
        mock::decides(d, p, rps, seq),
        p.mode == Mode::Truncate,
    ensures
        judged(rules, d, corrected_us) == if d.injected {
            Verdict::FailSize
        } else {
            Verdict::Pass
        },
{
    reveal_strlit("{\"status\":\"ok\",\"count\":3,\"items\":[\"a\",\"b\",\"c\"]}");
    reveal_strlit("{\"status\":\"ok\",\"count\":3,\"items\":[\"a\",\"b");
}

/// A slow answer is correct but late: it fails the latency tier of rules whose
/// limit the answer's own delay exceeds, and with no limit it passes.
pub proof fn law_latency_tier_tells_the_slow_answers(
    rules: InlineAssert,
    d: Decision,
    p: Params,
    rps: u64,
    seq: u64,
    corrected_us: u64,
)
    requires
        rules.expected_status@.len() == 0,
        rules.min_body_bytes is None,
        rules.max_body_bytes is None,
        rules.content_type_lc_prefix is None,
        mock::decides(d, p, rps, seq),
        p.mode == Mode::SlowOk,
        corrected_us >= d.latency_ms * 1000,
    ensures
        rules.max_latency_us is None ==> judged(rules, d, corrected_us) == Verdict::Pass,
        rules.max_latency_us matches Some(max) ==> {
            &&& d.injected && max < mock::SLOW_PENALTY_MS * 1000 ==> judged(rules, d, corrected_us)
                == Verdict::FailLatency
            &&& corrected_us <= max ==> judged(rules, d, corrected_us) == Verdict::Pass
        },
{
}

/// What a run counts when it judges the answers `ds`, of corrected latencies
/// `latencies`, in order.
pub open spec fn reported(rules: InlineAssert, ds: Seq<Decision>, latencies: Seq<u64>) -> Counts {
    Counts::sum(
        Seq::new(ds.len(), |i: int| Counts::one(judged(rules, ds[i], latencies[i]))),
    )
}

/// The reported failure rate is the injected one: of any hundred requests in a
/// row above the cliff, a run reports exactly `pct` status failures, none where
/// `pct` is below 0 and all where it is above 100; every other response passes.
pub proof fn law_reported_rate_is_the_injected_rate(
    rules: InlineAssert,
    p: Params,
    seq: u64,
    rps: Seq<u64>,
    ds: Seq<Decision>,
    latencies: Seq<u64>,
)
    requires
        status_alone(rules),
        p.mode == Mode::Fast500,
        seq + 100 <= u64::MAX,
        ds.len() == 100,
        rps.len() == 100,
        latencies.len() == 100,
        forall|i: int| 0 <= i < 100 ==> p.above(#[trigger] rps[i]),
        forall|i: int|
            0 <= i < 100 ==> mock::decides(#[trigger] ds[i], p, rps[i], (seq + i) as u64),
    ensures
        ({
            let counts = reported(rules, ds, latencies);
            let share = if p.pct < 0 {
                0
            } else if p.pct > 100 {
                100
            } else {
                p.pct as int
            };
            &&& counts.total == 100
            &&& counts.fail_status == share
            &&& counts.pass == 100 - share
        }),
{
    lemma_reported(rules, p, seq, rps, ds, latencies);
    mock::law_pct_of_a_hundred_are_selected(p, seq as int);
}

proof fn lemma_reported(
    rules: InlineAssert,
    p: Params,
    seq: u64,
    rps: Seq<u64>,
    ds: Seq<Decision>,
    latencies: Seq<u64>,
)
    requires
        status_alone(rules),
        p.mode == Mode::Fast500,
        seq + ds.len() <= u64::MAX,
        rps.len() == ds.len(),
        latencies.len() == ds.len(),
        forall|i: int| 0 <= i < ds.len() ==> p.above(#[trigger] rps[i]),
        forall|i: int|
            0 <= i < ds.len() ==> mock::decides(#[trigger] ds[i], p, rps[i], (seq + i) as u64),
    ensures
        ({
            let counts = reported(rules, ds, latencies);
            &&& counts.total == ds.len()
            &&& counts.fail_status == mock::selected_count(p, seq as int, ds.len())
            &&& counts.pass + counts.fail_status == counts.total
        }),
    decreases ds.len(),
{
    let all = Seq::new(ds.len(), |i: int| Counts::one(judged(rules, ds[i], latencies[i])));
    if ds.len() > 0 {
        let n = ds.len() - 1;
        let rest = ds.drop_last();
        assert forall|i: int| 0 <= i < rest.len() implies mock::decides(
            #[trigger] rest[i],
            p,
            rps.drop_last()[i],
            (seq + i) as u64,
        ) by {
            assert(mock::decides(ds[i], p, rps[i], (seq + i) as u64));
        }
        lemma_reported(rules, p, seq, rps.drop_last(), rest, latencies.drop_last());
        assert(all.drop_last() =~= Seq::new(
            rest.len(),
            |i: int| Counts::one(judged(rules, rest[i], latencies.drop_last()[i])),
        ));
        assert(mock::decides(ds[n], p, rps[n], (seq + n) as u64));
        law_status_tier_tells_the_injected_answers(
            rules,
            ds[n],
            p,
            rps[n],
            (seq + n) as u64,
            latencies[n],
        );
    }
}

} // verus!

# correctness-bench

A load benchmark that asks of every response whether it was *correct*, not only
how fast it came. The library is verified with Verus; the program around it owns
the sockets, clocks and streams.

## What it does

- **Open-loop load without coordinated omission.** Every request owns a slot on
  a schedule (constant rate or linear ramp), and its latency counts from that
  slot. A connection that falls behind catches up at twice the rate; that never
  moves a slot.
- **Correctness by tier.** Each response is a pass, a failure of exactly one tier
  (status, latency, size, content type), or rate limited. Rate limiting is an
  artifact of the offered load: it is reported on its own, never in the pass rate.
- **The worker's own part.** Every report says how far its worker slipped behind
  its own timetable, whether it was the bottleneck, and how many connections failed
  or timed out, so that a slow client is never passed off as a slow target.
- **Fleets.** A coordinator splits a run over its workers, merges their
  histograms without loss, and says so when a worker is lost. An abort stops the
  whole fleet.
- **The cliff.** The lowest load at which the pass rate drops below 95 %.

## Layout

- `src/` - the library. `sched` and `rate` hold the schedule, `hist` and `v2` the
  histograms and their encoding, `response`, `target` and `connection` one
  connection's cycle, `worker`, `run` and `tally` one worker's run, `coordinator`
  and `worker_node` the fleet, `cliff` the detector, `bench`, `launch` and `mock`
  the logic of the programs, `oracle` what the mock target proves of a run.
- `app/` - the program: one subcommand for the control-plane client, the worker,
  the worker node, the coordinator and the mock target.
- `tests/` - tests of the library on concrete values, with a virtual clock where
  a whole run or fleet is exercised.

## Exactness

Rates are ratios of integers, so slots are exact. Rates at which rate limiting
set in are kept in thousandths of a request per second. Latencies are recorded
by `hdrhistogram` at three significant digits; which rank a percentile picks is
that crate's business and is not stated here, only that percentiles are ordered
and never fall when values rise. The encoding is that crate's too: of a snapshot
off the network the library reads just enough to keep from the decoder what it
cannot take.

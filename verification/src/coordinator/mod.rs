//! The coordinator: which workers there are, which runs are in flight, and who
//! is told what.
//!
//! Times are milliseconds on the coordinator's own clock.

pub mod admin;
pub mod dispatch;

use vstd::prelude::*;
use vstd::string::*;

use crate::proto::{AbortRequest, RegisterAck, WorkerInfo};
use crate::worker_node::Unimplemented;
use crate::{tally, text};

verus! {

/// The version of the worker protocol that the coordinator speaks.
pub const CONTRACT_VERSION: &'static str = "1.0.0";

/// A worker silent for longer than this, in milliseconds, is taken for dead.
pub const HEARTBEAT_DEAD_AFTER: u64 = 10_000;

/// How long to try to reach a worker with an abort, in milliseconds.
pub const ABORT_TIMEOUT_MS: u64 = 500;

/// A registered worker.
#[derive(Debug, Clone)]
pub struct Worker {
    pub worker_id: String,
    pub address: String,
    pub contract_version: String,
    pub max_rps: u32,
    pub registered_at: u64,
    pub last_heartbeat: u64,
}

/// `Worker` as plain values.
pub struct WorkerRecord {
    pub worker_id: Seq<char>,
    pub address: Seq<char>,
    pub contract_version: Seq<char>,
    pub max_rps: u32,
    pub registered_at: u64,
    pub last_heartbeat: u64,
}

impl View for Worker {
    type V = WorkerRecord;

    open spec fn view(&self) -> WorkerRecord {
        WorkerRecord {
            worker_id: self.worker_id@,
            address: self.address@,
            contract_version: self.contract_version@,
            max_rps: self.max_rps,
            registered_at: self.registered_at,
            last_heartbeat: self.last_heartbeat,
        }
    }
}

impl Worker {
    /// A copy.
    pub fn copy(&self) -> (w: Worker)
        ensures
            w@ == self@,
    {
        Worker {
            worker_id: self.worker_id.clone(),
            address: self.address.clone(),
            contract_version: self.contract_version.clone(),
            max_rps: self.max_rps,
            registered_at: self.registered_at,
            last_heartbeat: self.last_heartbeat,
        }
    }
}

/// A run in flight.
#[derive(Debug, Clone)]
pub struct RunHandle {
    /// Addresses of the workers that take part.
    pub worker_addrs: Vec<String>,
    /// Set when the run was aborted.
    pub cancelled: bool,
}

/// `RunHandle` as plain values.
pub struct RunRecord {
    pub run_id: Seq<char>,
    pub worker_addrs: Seq<Seq<char>>,
    pub cancelled: bool,
}

/// A run in flight under its id.
#[derive(Debug)]
struct RunEntry {
    run_id: String,
    handle: RunHandle,
}

impl View for RunEntry {
    type V = RunRecord;

    closed spec fn view(&self) -> RunRecord {
        RunRecord {
            run_id: self.run_id@,
            worker_addrs: text::texts(self.handle.worker_addrs@),
            cancelled: self.handle.cancelled,
        }
    }
}

/// The coordinator's registry of workers and of runs in flight.
#[derive(Debug)]
pub struct CoordinatorState {
    workers: Vec<Worker>,
    runs: Vec<RunEntry>,
}

/// Where the worker with this id stands; the length where there is none.
pub open spec fn worker_at(workers: Seq<WorkerRecord>, id: Seq<char>) -> int
    decreases workers.len(),
{
    if workers.len() == 0 {
        0
    } else if workers.first().worker_id == id {
        0
    } else {
        1 + worker_at(workers.drop_first(), id)
    }
}

/// Where the run with this id stands; the length where there is none.
pub open spec fn run_at(runs: Seq<RunRecord>, id: Seq<char>) -> int
    decreases runs.len(),
{
    if runs.len() == 0 {
        0
    } else if runs.first().run_id == id {
        0
    } else {
        1 + run_at(runs.drop_first(), id)
    }
}

/// The registry with `w` in it, in place of a worker with the same id.
pub open spec fn with_worker(workers: Seq<WorkerRecord>, w: WorkerRecord) -> Seq<WorkerRecord> {
    let at = worker_at(workers, w.worker_id);
    if at < workers.len() {
        workers.update(at, w)
    } else {
        workers.push(w)
    }
}

/// The runs with `r` among them, in place of a run with the same id.
pub open spec fn with_run(runs: Seq<RunRecord>, r: RunRecord) -> Seq<RunRecord> {
    let at = run_at(runs, r.run_id);
    if at < runs.len() {
        runs.update(at, r)
    } else {
        runs.push(r)
    }
}

/// The runs without the one with this id; all of them where there is none.
pub open spec fn without_run(runs: Seq<RunRecord>, id: Seq<char>) -> Seq<RunRecord> {
    let at = run_at(runs, id);
    if at < runs.len() {
        runs.remove(at)
    } else {
        runs
    }
}

/// A worker is registered under this id.
pub open spec fn is_known(workers: Seq<WorkerRecord>, id: Seq<char>) -> bool {
    worker_at(workers, id) < workers.len()
}

/// A run with this id is in flight.
pub open spec fn is_flying(runs: Seq<RunRecord>, id: Seq<char>) -> bool {
    run_at(runs, id) < runs.len()
}

/// The run with this id was aborted while in flight.
pub open spec fn is_cancelled(runs: Seq<RunRecord>, id: Seq<char>) -> bool {
    is_flying(runs, id) && runs[run_at(runs, id)].cancelled
}

/// The runs after the one with this id was aborted; an unknown one changes nothing.
pub open spec fn aborted_in(runs: Seq<RunRecord>, id: Seq<char>) -> Seq<RunRecord> {
    let at = run_at(runs, id);
    if at < runs.len() {
        runs.update(at, RunRecord { cancelled: true, ..runs[at] })
    } else {
        runs
    }
}

/// The registry after the worker with this id was heard of at `now_ms`; an unknown
/// one changes nothing.
pub open spec fn heard(workers: Seq<WorkerRecord>, id: Seq<char>, now_ms: u64) -> Seq<
    WorkerRecord,
> {
    let at = worker_at(workers, id);
    if at < workers.len() {
        workers.update(at, WorkerRecord { last_heartbeat: now_ms, ..workers[at] })
    } else {
        workers
    }
}

/// A worker that has been silent for longer than `dead_after_ms` at `now_ms` is
/// dead.
pub open spec fn is_dead(w: WorkerRecord, now_ms: u64, dead_after_ms: u64) -> bool {
    tally::since(now_ms, w.last_heartbeat) > dead_after_ms
}

/// The workers that are not dead, in order.
pub open spec fn survivors(workers: Seq<WorkerRecord>, now_ms: u64, dead_after_ms: u64) -> Seq<
    WorkerRecord,
>
    decreases workers.len(),
{
    if workers.len() == 0 {
        Seq::empty()
    } else {
        let rest = survivors(workers.drop_last(), now_ms, dead_after_ms);
        if is_dead(workers.last(), now_ms, dead_after_ms) {
            rest
        } else {
            rest.push(workers.last())
        }
    }
}

/// The ids of the workers that are dead, in order.
pub open spec fn casualties(workers: Seq<WorkerRecord>, now_ms: u64, dead_after_ms: u64) -> Seq<
    Seq<char>,
>
    decreases workers.len(),
{
    if workers.len() == 0 {
        Seq::empty()
    } else {
        let rest = casualties(workers.drop_last(), now_ms, dead_after_ms);
        if is_dead(workers.last(), now_ms, dead_after_ms) {
            rest.push(workers.last().worker_id)
        } else {
            rest
        }
    }
}

/// No two workers share an id.
pub open spec fn distinct_workers(workers: Seq<WorkerRecord>) -> bool {
    forall|i: int, j: int|
        0 <= i < j < workers.len() ==> (#[trigger] workers[i]).worker_id != (
        #[trigger] workers[j]).worker_id
}

/// No two runs share an id.
pub open spec fn distinct_runs(runs: Seq<RunRecord>) -> bool {
    forall|i: int, j: int|
        0 <= i < j < runs.len() ==> (#[trigger] runs[i]).run_id != (#[trigger] runs[j]).run_id
}

proof fn lemma_worker_at(workers: Seq<WorkerRecord>, id: Seq<char>)
    ensures
        0 <= worker_at(workers, id) <= workers.len(),
        worker_at(workers, id) < workers.len() ==> workers[worker_at(workers, id)].worker_id == id,
        forall|i: int|
            0 <= i < worker_at(workers, id) ==> (#[trigger] workers[i]).worker_id != id,
    decreases workers.len(),
{
    if workers.len() > 0 && workers.first().worker_id != id {
        let rest = workers.drop_first();
        lemma_worker_at(rest, id);
        assert forall|i: int| 0 <= i < worker_at(workers, id) implies (
        #[trigger] workers[i]).worker_id != id by {
            if i > 0 {
                assert(rest[i - 1] == workers[i]);
            }
        }
    }
}

proof fn lemma_run_at(runs: Seq<RunRecord>, id: Seq<char>)
    ensures
        0 <= run_at(runs, id) <= runs.len(),
        run_at(runs, id) < runs.len() ==> runs[run_at(runs, id)].run_id == id,
        forall|i: int| 0 <= i < run_at(runs, id) ==> (#[trigger] runs[i]).run_id != id,
    decreases runs.len(),
{
    if runs.len() > 0 && runs.first().run_id != id {
        let rest = runs.drop_first();
        lemma_run_at(rest, id);
        assert forall|i: int| 0 <= i < run_at(runs, id) implies (#[trigger] runs[i]).run_id != id by {
            if i > 0 {
                assert(rest[i - 1] == runs[i]);
            }
        }
    }
}

/// The first place where something holds is the only such place.
proof fn lemma_worker_at_is(workers: Seq<WorkerRecord>, id: Seq<char>, at: int)
    requires
        0 <= at <= workers.len(),
        at < workers.len() ==> workers[at].worker_id == id,
        forall|i: int| 0 <= i < at ==> (#[trigger] workers[i]).worker_id != id,
    ensures
        worker_at(workers, id) == at,
{
    lemma_worker_at(workers, id);
    let found = worker_at(workers, id);
    if found < at {
        assert(workers[found].worker_id != id);
    }
}

proof fn lemma_run_at_is(runs: Seq<RunRecord>, id: Seq<char>, at: int)
    requires
        0 <= at <= runs.len(),
        at < runs.len() ==> runs[at].run_id == id,
        forall|i: int| 0 <= i < at ==> (#[trigger] runs[i]).run_id != id,
    ensures
        run_at(runs, id) == at,
{
    lemma_run_at(runs, id);
    let found = run_at(runs, id);
    if found < at {
        assert(runs[found].run_id != id);
    }
}

impl CoordinatorState {
    /// The registered workers.
    pub closed spec fn registry(self) -> Seq<WorkerRecord> {
        Seq::new(self.workers@.len(), |i: int| self.workers@[i]@)
    }

    /// The runs in flight.
    pub closed spec fn in_flight(self) -> Seq<RunRecord> {
        Seq::new(self.runs@.len(), |i: int| self.runs@[i]@)
    }

    /// Ids are unique.
    pub open spec fn wf(self) -> bool {
        distinct_workers(self.registry()) && distinct_runs(self.in_flight())
    }

    pub fn new() -> (s: Self)
        ensures
            s.wf(),
            s.registry() == Seq::<WorkerRecord>::empty(),
            s.in_flight() == Seq::<RunRecord>::empty(),
    {
        CoordinatorState { workers: Vec::new(), runs: Vec::new() }
    }

    fn find_worker(&self, id: &str) -> (at: usize)
        ensures
            at == worker_at(self.registry(), id@),
            at <= self.workers@.len(),
    {
        let mut at: usize = 0;
        while at < self.workers.len()
            invariant
                at <= self.workers@.len(),
                forall|i: int| 0 <= i < at ==> (#[trigger] self.registry()[i]).worker_id != id@,
            decreases self.workers.len() - at,
        {
            if text::same(&self.workers[at].worker_id, id) {
                proof {
                    assert(self.registry()[at as int].worker_id == id@);
                    lemma_worker_at_is(self.registry(), id@, at as int);
                }
                return at;
            }
            assert(self.registry()[at as int].worker_id != id@);
            at = at + 1;
        }
        proof {
            lemma_worker_at_is(self.registry(), id@, at as int);
        }
        at
    }

    fn find_run(&self, id: &str) -> (at: usize)
        ensures
            at == run_at(self.in_flight(), id@),
            at <= self.runs@.len(),
    {
        let mut at: usize = 0;
        while at < self.runs.len()
            invariant
                at <= self.runs@.len(),
                forall|i: int| 0 <= i < at ==> (#[trigger] self.in_flight()[i]).run_id != id@,
            decreases self.runs.len() - at,
        {
            if text::same(&self.runs[at].run_id, id) {
                proof {
                    assert(self.in_flight()[at as int].run_id == id@);
                    lemma_run_at_is(self.in_flight(), id@, at as int);
                }
                return at;
            }
            assert(self.in_flight()[at as int].run_id != id@);
            at = at + 1;
        }
        proof {
            lemma_run_at_is(self.in_flight(), id@, at as int);
        }
        at
    }

    /// How many workers are registered.
    pub fn worker_count(&self) -> (n: usize)
        ensures
            n == self.registry().len(),
    {
        self.workers.len()
    }

    /// All registered workers.
    pub fn list_workers(&self) -> (v: Vec<Worker>)
        ensures
            v@.len() == self.registry().len(),
            forall|i: int| 0 <= i < v@.len() ==> (#[trigger] v@[i])@ == self.registry()[i],
    {
        let mut v: Vec<Worker> = Vec::new();
        for i in 0..self.workers.len()
            invariant
                v@.len() == i,
                i <= self.workers@.len(),
                forall|k: int| 0 <= k < i ==> (#[trigger] v@[k])@ == self.registry()[k],
        {
            v.push(self.workers[i].copy());
        }
        v
    }

    /// Whether a worker is registered under this id.
    pub fn is_registered(&self, worker_id: &str) -> (b: bool)
        ensures
            b == is_known(self.registry(), worker_id@),
    {
        self.find_worker(worker_id) < self.workers.len()
    }

    /// Put `w` into the registry, in place of a worker with the same id. Returns
    /// whether there was one.
    pub fn insert_worker(&mut self, w: Worker) -> (replaced: bool)
        requires
            old(self).wf(),
        ensures
            final(self).wf(),
            final(self).registry() == with_worker(old(self).registry(), w@),
            final(self).in_flight() == old(self).in_flight(),
            replaced == is_known(old(self).registry(), w.worker_id@),
    {
        let at: usize = self.find_worker(&w.worker_id);
        let ghost before = self.registry();
        let ghost record = w@;
        proof {
            lemma_worker_at(before, w.worker_id@);
            lemma_with_worker(before, record);
        }
        if at < self.workers.len() {
            self.workers.set(at, w);
            assert(self.registry() =~= before.update(at as int, record));
            true
        } else {
            self.workers.push(w);
            assert(self.registry() =~= before.push(record));
            false
        }
    }

    /// Take out every worker that has been silent for longer than
    /// `dead_after_ms`. Returns their ids.
    pub fn reap_dead_workers(&mut self, now_ms: u64, dead_after_ms: u64) -> (evicted: Vec<String>)
        requires
            old(self).wf(),
        ensures
            final(self).wf(),
            final(self).registry() == survivors(old(self).registry(), now_ms, dead_after_ms),
            final(self).in_flight() == old(self).in_flight(),
            text::texts(evicted@) == casualties(old(self).registry(), now_ms, dead_after_ms),
    {
        let ghost before = self.registry();
        let mut evicted: Vec<String> = Vec::new();
        let mut kept: Vec<Worker> = Vec::new();
        let mut i: usize = 0;
        while i < self.workers.len()
            invariant
                *self == *old(self),
                before == self.registry(),
                i <= self.workers@.len(),
                Seq::new(kept@.len(), |k: int| kept@[k]@) == survivors(
                    before.take(i as int),
                    now_ms,
                    dead_after_ms,
                ),
                text::texts(evicted@) == casualties(before.take(i as int), now_ms, dead_after_ms),
            decreases self.workers.len() - i,
        {
            let w: &Worker = &self.workers[i];
            assert(before.take(i + 1).drop_last() =~= before.take(i as int));
            assert(before.take(i + 1).last() == w@);
            let ghost kept_before = Seq::new(kept@.len(), |k: int| kept@[k]@);
            let ghost evicted_before = text::texts(evicted@);
            if now_ms.saturating_sub(w.last_heartbeat) > dead_after_ms {
                evicted.push(w.worker_id.clone());
                assert(text::texts(evicted@) =~= evicted_before.push(w@.worker_id));
            } else {
                kept.push(w.copy());
                assert(Seq::new(kept@.len(), |k: int| kept@[k]@) =~= kept_before.push(w@));
            }
            i = i + 1;
        }
        assert(before.take(before.len() as int) =~= before);
        self.workers = kept;
        proof {
            lemma_survivors_distinct(before, now_ms, dead_after_ms);
            assert(self.registry() =~= survivors(before, now_ms, dead_after_ms));
            assert(self.in_flight() =~= old(self).in_flight());
        }
        evicted
    }

    /// A worker was heard of at `now_ms`. An unknown one changes nothing.
    pub fn heard_of(&mut self, worker_id: &str, now_ms: u64)
        requires
            old(self).wf(),
        ensures
            final(self).wf(),
            final(self).in_flight() == old(self).in_flight(),
            final(self).registry() == heard(old(self).registry(), worker_id@, now_ms),
    {
        let at: usize = self.find_worker(worker_id);
        let ghost before = self.registry();
        if at < self.workers.len() {
            let mut w: Worker = self.workers[at].copy();
            w.last_heartbeat = now_ms;
            let ghost record = w@;
            self.workers.set(at, w);
            assert(self.registry() =~= before.update(at as int, record));
            assert(self.in_flight() =~= old(self).in_flight());
            assert forall|i: int, j: int| 0 <= i < j < self.registry().len() implies (
            #[trigger] self.registry()[i]).worker_id != (
            #[trigger] self.registry()[j]).worker_id by {
                assert(before[i].worker_id != before[j].worker_id);
            }
        }
    }

    /// Note a run in flight, so that it can be aborted.
    pub fn register_run(&mut self, run_id: String, handle: RunHandle)
        requires
            old(self).wf(),
        ensures
            final(self).wf(),
            final(self).registry() == old(self).registry(),
            final(self).in_flight() == with_run(
                old(self).in_flight(),
                RunRecord {
                    run_id: run_id@,
                    worker_addrs: text::texts(handle.worker_addrs@),
                    cancelled: handle.cancelled,
                },
            ),
    {
        let at: usize = self.find_run(&run_id);
        let ghost before = self.in_flight();
        let entry: RunEntry = RunEntry { run_id, handle };
        let ghost record = entry@;
        proof {
            lemma_run_at(before, run_id@);
            lemma_with_run(before, record);
        }
        if at < self.runs.len() {
            self.runs.set(at, entry);
            assert(self.in_flight() =~= before.update(at as int, record));
        } else {
            self.runs.push(entry);
            assert(self.in_flight() =~= before.push(record));
        }
        assert(self.registry() =~= old(self).registry());
    }

    /// Forget a run whose dispatch is over. Forgetting an unknown run does
    /// nothing.
    pub fn deregister_run(&mut self, run_id: &str)
        requires
            old(self).wf(),
        ensures
            final(self).wf(),
            final(self).registry() == old(self).registry(),
            final(self).in_flight() == without_run(old(self).in_flight(), run_id@),
            run_at(final(self).in_flight(), run_id@) == final(self).in_flight().len(),
    {
        let at: usize = self.find_run(run_id);
        let ghost before = self.in_flight();
        proof {
            lemma_run_at(before, run_id@);
        }
        if at < self.runs.len() {
            let _ = self.runs.remove(at);
            assert(self.in_flight() =~= before.remove(at as int));
            assert forall|i: int, j: int| 0 <= i < j < self.in_flight().len() implies (
            #[trigger] self.in_flight()[i]).run_id != (#[trigger] self.in_flight()[j]).run_id by {
                let i0 = if i < at { i } else { i + 1 };
                let j0 = if j < at { j } else { j + 1 };
                assert(before[i0].run_id != before[j0].run_id);
            }
            assert forall|i: int| 0 <= i < self.in_flight().len() implies (
            #[trigger] self.in_flight()[i]).run_id != run_id@ by {
                let i0 = if i < at { i } else { i + 1 };
                if i0 < at {
                    assert(before[i0].run_id != before[at as int].run_id);
                } else {
                    assert(before[at as int].run_id != before[i0].run_id);
                }
            }
        }
        proof {
            assert(self.registry() =~= old(self).registry());
            lemma_run_at_is(self.in_flight(), run_id@, self.in_flight().len() as int);
        }
    }

    /// Whether a run is in flight.
    pub fn is_run_active(&self, run_id: &str) -> (b: bool)
        ensures
            b == is_flying(self.in_flight(), run_id@),
    {
        self.find_run(run_id) < self.runs.len()
    }

    /// Whether a run was aborted while in flight.
    pub fn is_run_cancelled(&self, run_id: &str) -> (b: bool)
        ensures
            b == is_cancelled(self.in_flight(), run_id@),
    {
        let at: usize = self.find_run(run_id);
        proof {
            lemma_run_at(self.in_flight(), run_id@);
        }
        at < self.runs.len() && self.runs[at].handle.cancelled
    }

    /// Abort a run in flight. Returns whether there is one.
    pub fn abort_run(&mut self, run_id: &str) -> (known: bool)
        requires
            old(self).wf(),
        ensures
            final(self).wf(),
            final(self).registry() == old(self).registry(),
            known == is_flying(old(self).in_flight(), run_id@),
            final(self).in_flight() == aborted_in(old(self).in_flight(), run_id@),
    {
        let at: usize = self.find_run(run_id);
        let ghost before = self.in_flight();
        if at < self.runs.len() {
            let entry: RunEntry = RunEntry {
                run_id: self.runs[at].run_id.clone(),
                handle: RunHandle {
                    worker_addrs: copy_texts(&self.runs[at].handle.worker_addrs),
                    cancelled: true,
                },
            };
            let ghost record = entry@;
            self.runs.set(at, entry);
            assert(self.in_flight() =~= before.update(at as int, record));
            assert(self.registry() =~= old(self).registry());
            assert forall|i: int, j: int| 0 <= i < j < self.in_flight().len() implies (
            #[trigger] self.in_flight()[i]).run_id != (#[trigger] self.in_flight()[j]).run_id by {
                assert(before[i].run_id != before[j].run_id);
            }
            true
        } else {
            false
        }
    }

    /// The aborts to send out for a run in flight: one for each worker that takes
    /// part.
    pub fn abort_calls(&self, run_id: &str) -> (calls: Vec<AbortCall>)
        ensures
            stops(calls@, self.in_flight(), run_id@),
    {
        let at: usize = self.find_run(run_id);
        proof {
            lemma_run_at(self.in_flight(), run_id@);
        }
        if at < self.runs.len() {
            fan_out_aborts(run_id, &self.runs[at].handle.worker_addrs)
        } else {
            Vec::new()
        }
    }
}

proof fn lemma_with_worker(workers: Seq<WorkerRecord>, w: WorkerRecord)
    requires
        distinct_workers(workers),
    ensures
        distinct_workers(with_worker(workers, w)),
{
    lemma_worker_at(workers, w.worker_id);
    let at = worker_at(workers, w.worker_id);
    let after = with_worker(workers, w);
    assert forall|i: int, j: int| 0 <= i < j < after.len() implies (#[trigger] after[i]).worker_id
        != (#[trigger] after[j]).worker_id by {
        if at < workers.len() {
            assert(workers[i].worker_id != workers[j].worker_id);
        } else if j < workers.len() {
            assert(workers[i].worker_id != workers[j].worker_id);
        } else {
            assert(workers[i].worker_id != w.worker_id);
        }
    }
}

proof fn lemma_with_run(runs: Seq<RunRecord>, r: RunRecord)
    requires
        distinct_runs(runs),
    ensures
        distinct_runs(with_run(runs, r)),
{
    lemma_run_at(runs, r.run_id);
    let at = run_at(runs, r.run_id);
    let after = with_run(runs, r);
    assert forall|i: int, j: int| 0 <= i < j < after.len() implies (#[trigger] after[i]).run_id != (
    #[trigger] after[j]).run_id by {
        if at < runs.len() {
            assert(runs[i].run_id != runs[j].run_id);
        } else if j < runs.len() {
            assert(runs[i].run_id != runs[j].run_id);
        } else {
            assert(runs[i].run_id != r.run_id);
        }
    }
}

/// Every survivor was registered, and is not dead.
proof fn lemma_survivor_origin(workers: Seq<WorkerRecord>, now_ms: u64, dead_after_ms: u64, i: int)
    requires
        0 <= i < survivors(workers, now_ms, dead_after_ms).len(),
    ensures
        exists|k: int|
            0 <= k < workers.len() && #[trigger] workers[k] == survivors(
                workers,
                now_ms,
                dead_after_ms,
            )[i] && !is_dead(workers[k], now_ms, dead_after_ms),
    decreases workers.len(),
{
    let rest = workers.drop_last();
    let kept = survivors(rest, now_ms, dead_after_ms);
    if i < kept.len() {
        lemma_survivor_origin(rest, now_ms, dead_after_ms, i);
        let k = choose|k: int|
            0 <= k < rest.len() && #[trigger] rest[k] == kept[i] && !is_dead(
                rest[k],
                now_ms,
                dead_after_ms,
            );
        assert(workers[k] == kept[i]);
    } else {
        assert(workers[workers.len() - 1] == survivors(workers, now_ms, dead_after_ms)[i]);
    }
}

proof fn lemma_survivors_distinct(workers: Seq<WorkerRecord>, now_ms: u64, dead_after_ms: u64)
    requires
        distinct_workers(workers),
    ensures
        distinct_workers(survivors(workers, now_ms, dead_after_ms)),
    decreases workers.len(),
{
    if workers.len() > 0 {
        let rest = workers.drop_last();
        let kept = survivors(rest, now_ms, dead_after_ms);
        let after = survivors(workers, now_ms, dead_after_ms);
        assert forall|i: int, j: int| 0 <= i < j < rest.len() implies (#[trigger] rest[i]).worker_id
            != (#[trigger] rest[j]).worker_id by {
            assert(workers[i].worker_id != workers[j].worker_id);
        }
        lemma_survivors_distinct(rest, now_ms, dead_after_ms);
        assert forall|i: int, j: int| 0 <= i < j < after.len() implies (#[trigger] after[i]).worker_id
            != (#[trigger] after[j]).worker_id by {
            if j < kept.len() {
                assert(kept[i].worker_id != kept[j].worker_id);
            } else {
                lemma_survivor_origin(rest, now_ms, dead_after_ms, i);
                let k = choose|k: int|
                    0 <= k < rest.len() && #[trigger] rest[k] == kept[i] && !is_dead(
                        rest[k],
                        now_ms,
                        dead_after_ms,
                    );
                assert(workers[k].worker_id != workers[workers.len() - 1].worker_id);
            }
        }
    }
}

/// Reaping at the same moment again takes nobody out.
pub proof fn law_reaping_twice_changes_nothing(
    workers: Seq<WorkerRecord>,
    now_ms: u64,
    dead_after_ms: u64,
)
    ensures
        survivors(survivors(workers, now_ms, dead_after_ms), now_ms, dead_after_ms) == survivors(
            workers,
            now_ms,
            dead_after_ms,
        ),
        casualties(survivors(workers, now_ms, dead_after_ms), now_ms, dead_after_ms).len() == 0,
    decreases workers.len(),
{
    if workers.len() > 0 {
        let rest = workers.drop_last();
        law_reaping_twice_changes_nothing(rest, now_ms, dead_after_ms);
        if !is_dead(workers.last(), now_ms, dead_after_ms) {
            let kept = survivors(rest, now_ms, dead_after_ms);
            assert(kept.push(workers.last()).drop_last() =~= kept);
        }
    }
}

/// The reaper evicts exactly the silent workers: every one that is dead is gone,
/// and every other one stays.
pub proof fn law_reaper_evicts_exactly_the_silent(
    workers: Seq<WorkerRecord>,
    now_ms: u64,
    dead_after_ms: u64,
    w: WorkerRecord,
)
    ensures
        survivors(workers, now_ms, dead_after_ms).contains(w) <==> workers.contains(w) && !is_dead(
            w,
            now_ms,
            dead_after_ms,
        ),
    decreases workers.len(),
{
    if workers.len() > 0 {
        let rest = workers.drop_last();
        let kept = survivors(rest, now_ms, dead_after_ms);
        let after = survivors(workers, now_ms, dead_after_ms);
        law_reaper_evicts_exactly_the_silent(rest, now_ms, dead_after_ms, w);
        if after.contains(w) {
            let i = choose|i: int| 0 <= i < after.len() && after[i] == w;
            if i < kept.len() {
                assert(kept[i] == w);
                let k = choose|k: int| 0 <= k < rest.len() && rest[k] == w;
                assert(workers[k] == w);
            } else {
                assert(workers[workers.len() - 1] == w);
            }
        }
        if workers.contains(w) && !is_dead(w, now_ms, dead_after_ms) {
            let k = choose|k: int| 0 <= k < workers.len() && workers[k] == w;
            if k < rest.len() {
                assert(rest[k] == w);
                let i = choose|i: int| 0 <= i < kept.len() && kept[i] == w;
                assert(after[i] == w);
            } else {
                assert(after[kept.len() as int] == w);
            }
        }
    }
}

/// A worker that has registered is found under its id, and nobody else is
/// affected.
pub proof fn law_registered_worker_is_found(
    workers: Seq<WorkerRecord>,
    w: WorkerRecord,
    other: Seq<char>,
)
    requires
        distinct_workers(workers),
        other != w.worker_id,
    ensures
        ({
            let after = with_worker(workers, w);
            let at = worker_at(after, w.worker_id);
            &&& at < after.len() && after[at] == w
            &&& worker_at(after, other) < after.len() <==> worker_at(workers, other) < workers.len()
            &&& worker_at(workers, other) < workers.len() ==> after[worker_at(after, other)]
                == workers[worker_at(workers, other)]
            &&& after.len() == workers.len() + if worker_at(workers, w.worker_id) < workers.len() {
                0int
            } else {
                1
            }
        }),
{
    let after = with_worker(workers, w);
    let at = worker_at(workers, w.worker_id);
    lemma_worker_at(workers, w.worker_id);
    lemma_worker_at(workers, other);
    lemma_worker_at(after, other);
    assert forall|i: int| 0 <= i < at implies (#[trigger] after[i]).worker_id != w.worker_id by {
        assert(workers[i].worker_id != w.worker_id);
    }
    lemma_worker_at_is(after, w.worker_id, at);
    let o = worker_at(workers, other);
    assert forall|i: int| 0 <= i < o implies (#[trigger] after[i]).worker_id != other by {
        if i < workers.len() {
            assert(workers[i].worker_id != other);
        }
    }
    if o < workers.len() {
        assert(after[o] == workers[o]);
        lemma_worker_at_is(after, other, o);
    } else {
        assert forall|i: int| 0 <= i < after.len() implies (#[trigger] after[i]).worker_id != other by {
            if i < workers.len() {
                assert(workers[i].worker_id != other);
            }
        }
        lemma_worker_at_is(after, other, after.len() as int);
    }
}

/// A run that was noted is in flight and not aborted; once aborted it stays in
/// flight, aborted.
pub proof fn law_abort_sticks(runs: Seq<RunRecord>, r: RunRecord)
    requires
        !r.cancelled,
    ensures
        ({
            let noted = with_run(runs, r);
            let at = run_at(noted, r.run_id);
            let aborted = noted.update(at, RunRecord { cancelled: true, ..noted[at] });
            &&& at < noted.len() && noted[at] == r
            &&& run_at(aborted, r.run_id) == at && aborted[at].cancelled
        }),
{
    let noted = with_run(runs, r);
    let at = run_at(runs, r.run_id);
    lemma_run_at(runs, r.run_id);
    assert forall|i: int| 0 <= i < at implies (#[trigger] noted[i]).run_id != r.run_id by {
        assert(runs[i].run_id != r.run_id);
    }
    lemma_run_at_is(noted, r.run_id, at);
    let aborted = noted.update(at, RunRecord { cancelled: true, ..noted[at] });
    assert forall|i: int| 0 <= i < at implies (#[trigger] aborted[i]).run_id != r.run_id by {
        assert(noted[i].run_id != r.run_id);
    }
    lemma_run_at_is(aborted, r.run_id, at);
}

/// Copies of texts.
pub fn copy_texts(v: &Vec<String>) -> (r: Vec<String>)
    ensures
        text::texts(r@) == text::texts(v@),
{
    let mut r: Vec<String> = Vec::new();
    for i in 0..v.len()
        invariant
            r@.len() == i,
            i <= v@.len(),
            forall|k: int| 0 <= k < i ==> (#[trigger] r@[k])@ == v@[k]@,
    {
        r.push(v[i].clone());
    }
    assert(text::texts(r@) =~= text::texts(v@));
    r
}

/// The URL to dial for an address: an address without a scheme is http.
pub open spec fn dial_text(addr: Seq<char>) -> Seq<char> {
    if "http://"@.is_prefix_of(addr) || "https://"@.is_prefix_of(addr) {
        addr
    } else {
        "http://"@ + addr
    }
}

/// The URL to dial for an address.
pub fn dial_url(addr: &str) -> (url: String)
    ensures
        url@ == dial_text(addr@),
{
    if text::starts_with(addr, "http://") || text::starts_with(addr, "https://") {
        addr.to_owned()
    } else {
        text::joined("http://", addr)
    }
}

/// An abort and where to send it.
#[derive(Debug)]
pub struct AbortCall {
    pub url: String,
    pub request: AbortRequest,
}

/// `calls` abort the run on each of the addresses.
pub open spec fn aborts(calls: Seq<AbortCall>, run_id: Seq<char>, addrs: Seq<Seq<char>>) -> bool {
    &&& calls.len() == addrs.len()
    &&& forall|i: int|
        0 <= i < calls.len() ==> {
            &&& (#[trigger] calls[i]).url@ == dial_text(addrs[i])
            &&& calls[i].request.run_id@ == run_id
            &&& calls[i].request.worker_id@ == Seq::<char>::empty()
            &&& calls[i].request.reason@ == "operator abort"@
        }
}

/// `calls` abort the run with this id on every worker that takes part; there are none
/// for a run that is not in flight.
pub open spec fn stops(calls: Seq<AbortCall>, runs: Seq<RunRecord>, id: Seq<char>) -> bool {
    let at = run_at(runs, id);
    if at < runs.len() {
        aborts(calls, id, runs[at].worker_addrs)
    } else {
        calls.len() == 0
    }
}

/// The aborts that stop a run on every worker that takes part.
pub fn fan_out_aborts(run_id: &str, worker_addrs: &Vec<String>) -> (calls: Vec<AbortCall>)
    ensures
        aborts(calls@, run_id@, text::texts(worker_addrs@)),
{
    let mut calls: Vec<AbortCall> = Vec::new();
    for i in 0..worker_addrs.len()
        invariant
            i <= worker_addrs@.len(),
            aborts(calls@, run_id@, text::texts(worker_addrs@).take(i as int)),
    {
        calls.push(
            AbortCall {
                url: dial_url(&worker_addrs[i]),
                request: AbortRequest {
                    run_id: run_id.to_owned(),
                    worker_id: String::new(),
                    reason: "operator abort".to_owned(),
                },
            },
        );
    }
    assert(text::texts(worker_addrs@).take(worker_addrs@.len() as int) =~= text::texts(worker_addrs@));
    calls
}

/// The coordinator's side of the worker protocol.
#[derive(Debug)]
pub struct CoordinatorService {
    pub state: CoordinatorState,
}

/// Whether a worker's introduction is accepted.
pub open spec fn acceptable(
    worker_id: Seq<char>,
    address: Seq<char>,
    contract_version: Seq<char>,
) -> bool {
    &&& contract_version == CONTRACT_VERSION@
    &&& worker_id.len() > 0
    &&& address.len() > 0
}

/// Why an introduction is turned down; empty where it is accepted.
pub open spec fn rejection(
    worker_id: Seq<char>,
    address: Seq<char>,
    contract_version: Seq<char>,
) -> Seq<char> {
    if contract_version != CONTRACT_VERSION@ {
        "contract version mismatch: worker="@ + contract_version + " coordinator="@
            + CONTRACT_VERSION@
    } else if worker_id.len() == 0 || address.len() == 0 {
        "worker_id and address are required"@
    } else {
        Seq::empty()
    }
}

/// The registry after a worker introduced itself at `now_ms`: with it in its place, or
/// as it was where the introduction is turned down.
pub open spec fn introduced(
    workers: Seq<WorkerRecord>,
    worker_id: Seq<char>,
    address: Seq<char>,
    contract_version: Seq<char>,
    max_rps: u32,
    now_ms: u64,
) -> Seq<WorkerRecord> {
    if acceptable(worker_id, address, contract_version) {
        with_worker(
            workers,
            WorkerRecord {
                worker_id,
                address,
                contract_version,
                max_rps,
                registered_at: now_ms,
                last_heartbeat: now_ms,
            },
        )
    } else {
        workers
    }
}

impl CoordinatorService {
    pub fn new(state: CoordinatorState) -> (s: Self)
        ensures
            s.state == state,
    {
        CoordinatorService { state }
    }

    /// A worker introduces itself. It is registered unless it speaks another
    /// version of the protocol, or leaves out its id or its address; a worker
    /// that introduces itself again takes its own place.
    pub fn register(&mut self, info: &WorkerInfo, now_ms: u64) -> (ack: RegisterAck)
        requires
            old(self).state.wf(),
        ensures
            final(self).state.wf(),
            final(self).state.in_flight() == old(self).state.in_flight(),
            ack.accepted == acceptable(
                info.worker_id@,
                info.address@,
                info.contract_version@,
            ),
            ack.reason@ == rejection(info.worker_id@, info.address@, info.contract_version@),
            final(self).state.registry() == introduced(
                old(self).state.registry(),
                info.worker_id@,
                info.address@,
                info.contract_version@,
                info.max_rps,
                now_ms,
            ),
    {
        if !text::same(&info.contract_version, CONTRACT_VERSION) {
            let mut reason: String = text::joined(
                "contract version mismatch: worker=",
                &info.contract_version,
            );
            reason.append(" coordinator=");
            reason.append(CONTRACT_VERSION);
            return RegisterAck { accepted: false, reason };
        }
        if info.worker_id.as_str().is_empty() || info.address.as_str().is_empty() {
            return RegisterAck {
                accepted: false,
                reason: "worker_id and address are required".to_owned(),
            };
        }
        let worker: Worker = Worker {
            worker_id: info.worker_id.clone(),
            address: info.address.clone(),
            contract_version: info.contract_version.clone(),
            max_rps: info.max_rps,
            registered_at: now_ms,
            last_heartbeat: now_ms,
        };
        let _ = self.state.insert_worker(worker);
        RegisterAck { accepted: true, reason: String::new() }
    }

    /// A worker's heartbeat: it is alive at `now_ms`. Every heartbeat is
    /// answered in the affirmative, that of an unknown worker too.
    pub fn heartbeat(&mut self, worker_id: &str, now_ms: u64) -> (ok: bool)
        requires
            old(self).state.wf(),
        ensures
            ok,
            final(self).state.wf(),
            final(self).state.in_flight() == old(self).state.in_flight(),
            final(self).state.registry() == heard(old(self).state.registry(), worker_id@, now_ms),
    {
        self.state.heard_of(worker_id, now_ms);
        true
    }

    /// Slices run on workers.
    pub fn run_slice(&self) -> (e: Unimplemented)
        ensures
            e == Unimplemented::RunSliceLivesOnWorker,
    {
        Unimplemented::RunSliceLivesOnWorker
    }

    /// Workers are aborted, coordinators are not.
    pub fn abort(&self) -> (e: Unimplemented)
        ensures
            e == Unimplemented::AbortLivesOnWorker,
    {
        Unimplemented::AbortLivesOnWorker
    }
}

/// A worker is found by its id alone: it is known if and only if some registered
/// worker has that id, and likewise a run.
pub proof fn law_workers_and_runs_go_by_their_ids(
    workers: Seq<WorkerRecord>,
    runs: Seq<RunRecord>,
    id: Seq<char>,
)
    ensures
        is_known(workers, id) <==> exists|i: int|
            0 <= i < workers.len() && (#[trigger] workers[i]).worker_id == id,
        is_known(workers, id) ==> workers[worker_at(workers, id)].worker_id == id,
        is_flying(runs, id) <==> exists|i: int|
            0 <= i < runs.len() && (#[trigger] runs[i]).run_id == id,
        is_flying(runs, id) ==> runs[run_at(runs, id)].run_id == id,
        is_cancelled(runs, id) ==> is_flying(runs, id) && runs[run_at(runs, id)].cancelled,
        is_flying(runs, id) && runs[run_at(runs, id)].cancelled ==> is_cancelled(runs, id),
{
    lemma_worker_at(workers, id);
    lemma_run_at(runs, id);
    if exists|i: int| 0 <= i < workers.len() && (#[trigger] workers[i]).worker_id == id {
        let i = choose|i: int| 0 <= i < workers.len() && (#[trigger] workers[i]).worker_id == id;
        assert(!is_known(workers, id) ==> workers[i].worker_id != id);
    }
    if exists|i: int| 0 <= i < runs.len() && (#[trigger] runs[i]).run_id == id {
        let i = choose|i: int| 0 <= i < runs.len() && (#[trigger] runs[i]).run_id == id;
        assert(!is_flying(runs, id) ==> runs[i].run_id != id);
    }
}

/// A worker is dead once more than the allowed silence has passed since it was last
/// heard of, to the millisecond, and by default that is ten seconds.
pub proof fn law_silence_is_measured_from_the_last_heartbeat(
    w: WorkerRecord,
    now_ms: u64,
    dead_after_ms: u64,
)
    ensures
        is_dead(w, now_ms, dead_after_ms) <==> now_ms > w.last_heartbeat + dead_after_ms,
        is_dead(w, now_ms, HEARTBEAT_DEAD_AFTER) <==> now_ms > w.last_heartbeat + 10_000,
{
}

/// Reaping keeps every worker heard of within the allowed silence and no other, and
/// tells the ids of just those it takes out.
pub proof fn law_reaping_parts_the_silent_from_the_rest(
    workers: Seq<WorkerRecord>,
    now_ms: u64,
    dead_after_ms: u64,
    w: WorkerRecord,
    id: Seq<char>,
)
    ensures
        survivors(workers, now_ms, dead_after_ms).contains(w) <==> workers.contains(w) && now_ms
            <= w.last_heartbeat + dead_after_ms,
        casualties(workers, now_ms, dead_after_ms).contains(id) <==> exists|i: int|
            0 <= i < workers.len() && (#[trigger] workers[i]).worker_id == id && now_ms
                > workers[i].last_heartbeat + dead_after_ms,
        survivors(workers, now_ms, dead_after_ms).len() + casualties(
            workers,
            now_ms,
            dead_after_ms,
        ).len() == workers.len(),
{
    law_reaper_evicts_exactly_the_silent(workers, now_ms, dead_after_ms, w);
    lemma_casualties(workers, now_ms, dead_after_ms, id);
}

proof fn lemma_casualties(
    workers: Seq<WorkerRecord>,
    now_ms: u64,
    dead_after_ms: u64,
    id: Seq<char>,
)
    ensures
        casualties(workers, now_ms, dead_after_ms).contains(id) <==> exists|i: int|
            0 <= i < workers.len() && (#[trigger] workers[i]).worker_id == id && is_dead(
                workers[i],
                now_ms,
                dead_after_ms,
            ),
        survivors(workers, now_ms, dead_after_ms).len() + casualties(
            workers,
            now_ms,
            dead_after_ms,
        ).len() == workers.len(),
    decreases workers.len(),
{
    if workers.len() > 0 {
        let rest = workers.drop_last();
        let gone = casualties(rest, now_ms, dead_after_ms);
        let after = casualties(workers, now_ms, dead_after_ms);
        let n = workers.len() - 1;
        lemma_casualties(rest, now_ms, dead_after_ms, id);
        if after.contains(id) {
            let k = choose|k: int| 0 <= k < after.len() && after[k] == id;
            if k < gone.len() {
                assert(gone[k] == id);
                let i = choose|i: int|
                    0 <= i < rest.len() && (#[trigger] rest[i]).worker_id == id && is_dead(
                        rest[i],
                        now_ms,
                        dead_after_ms,
                    );
                assert(workers[i].worker_id == id && is_dead(workers[i], now_ms, dead_after_ms));
            } else {
                assert(workers[n].worker_id == id && is_dead(workers[n], now_ms, dead_after_ms));
            }
        }
        if exists|i: int|
            0 <= i < workers.len() && (#[trigger] workers[i]).worker_id == id && is_dead(
                workers[i],
                now_ms,
                dead_after_ms,
            ) {
            let i = choose|i: int|
                0 <= i < workers.len() && (#[trigger] workers[i]).worker_id == id && is_dead(
                    workers[i],
                    now_ms,
                    dead_after_ms,
                );
            if i < n {
                assert(rest[i].worker_id == id && is_dead(rest[i], now_ms, dead_after_ms));
                let k = choose|k: int| 0 <= k < gone.len() && gone[k] == id;
                assert(after[k] == id);
            } else {
                assert(after[gone.len() as int] == id);
            }
        }
    } else {
        assert(casualties(workers, now_ms, dead_after_ms).len() == 0);
    }
}

/// Survivors keep their order: taking a worker in at the end and reaping gives the
/// survivors of the others, and the worker behind them if it survives.
pub proof fn law_reaping_keeps_the_order(
    workers: Seq<WorkerRecord>,
    w: WorkerRecord,
    now_ms: u64,
    dead_after_ms: u64,
)
    ensures
        survivors(workers.push(w), now_ms, dead_after_ms) == if now_ms > w.last_heartbeat
            + dead_after_ms {
            survivors(workers, now_ms, dead_after_ms)
        } else {
            survivors(workers, now_ms, dead_after_ms).push(w)
        },
        survivors(Seq::empty(), now_ms, dead_after_ms).len() == 0,
{
    assert(workers.push(w).drop_last() =~= workers);
}

/// A heartbeat keeps a worker alive: a known worker that was heard of at `now_ms` is
/// not taken out before the allowed silence has passed again, keeps everything else
/// it was registered with, and no other worker is touched. A heartbeat of an unknown
/// worker changes nothing.
pub proof fn law_a_heartbeat_keeps_a_worker_alive(
    workers: Seq<WorkerRecord>,
    id: Seq<char>,
    now_ms: u64,
    later_ms: u64,
    dead_after_ms: u64,
    i: int,
)
    requires
        distinct_workers(workers),
        0 <= i < workers.len(),
    ensures
        heard(workers, id, now_ms).len() == workers.len(),
        workers[i].worker_id == id ==> {
            let w = heard(workers, id, now_ms)[i];
            &&& w.last_heartbeat == now_ms
            &&& w.worker_id == id
            &&& w.address == workers[i].address
            &&& w.max_rps == workers[i].max_rps
            &&& w.contract_version == workers[i].contract_version
            &&& w.registered_at == workers[i].registered_at
            &&& later_ms <= now_ms + dead_after_ms ==> survivors(
                heard(workers, id, now_ms),
                later_ms,
                dead_after_ms,
            ).contains(w)
        },
        workers[i].worker_id != id ==> heard(workers, id, now_ms)[i] == workers[i],
{
    lemma_worker_at(workers, id);
    let at = worker_at(workers, id);
    if workers[i].worker_id == id {
        assert(at == i) by {
            if at < i {
                assert(workers[at].worker_id != workers[i].worker_id);
            } else if i < at {
                assert(workers[i].worker_id != id);
            }
        }
        let after = heard(workers, id, now_ms);
        law_reaper_evicts_exactly_the_silent(after, later_ms, dead_after_ms, after[i]);
        assert(after.contains(after[i]));
    }
}

/// An introduction is accepted if it speaks version 1.0.0 and gives an id and an
/// address; a reason is given if and only if it is not. An accepted worker is
/// registered under its id with what it told, as heard of just now; one that is turned
/// down leaves the registry as it was.
pub proof fn law_a_worker_is_registered_as_it_introduced_itself(
    workers: Seq<WorkerRecord>,
    worker_id: Seq<char>,
    address: Seq<char>,
    contract_version: Seq<char>,
    max_rps: u32,
    now_ms: u64,
)
    requires
        distinct_workers(workers),
    ensures
        ({
            let fine = contract_version == "1.0.0"@ && worker_id.len() > 0 && address.len() > 0;
            let after = introduced(
                workers,
                worker_id,
                address,
                contract_version,
                max_rps,
                now_ms,
            );
            let reason = rejection(worker_id, address, contract_version);
            &&& acceptable(worker_id, address, contract_version) == fine
            &&& fine <==> reason.len() == 0
            &&& !fine ==> after == workers
            &&& fine ==> exists|i: int|
                0 <= i < after.len() && #[trigger] after[i] == (WorkerRecord {
                    worker_id,
                    address,
                    contract_version,
                    max_rps,
                    registered_at: now_ms,
                    last_heartbeat: now_ms,
                })
            &&& fine ==> after.len() <= workers.len() + 1
            &&& fine ==> forall|i: int|
                0 <= i < workers.len() && (#[trigger] workers[i]).worker_id != worker_id
                    ==> after[i] == workers[i]
        }),
{
    reveal_strlit("contract version mismatch: worker=");
    reveal_strlit("worker_id and address are required");
    lemma_worker_at(workers, worker_id);
    let w = WorkerRecord {
        worker_id,
        address,
        contract_version,
        max_rps,
        registered_at: now_ms,
        last_heartbeat: now_ms,
    };
    let after = with_worker(workers, w);
    assert(after[worker_at(workers, worker_id)] == w);
    assert(CONTRACT_VERSION@ == "1.0.0"@);
    let fine = contract_version == "1.0.0"@ && worker_id.len() > 0 && address.len() > 0;
    assert(fine <==> rejection(worker_id, address, contract_version).len() == 0);
    assert(acceptable(worker_id, address, contract_version) == fine);
    if fine {
        assert(introduced(workers, worker_id, address, contract_version, max_rps, now_ms) == after);
    }
}

/// An abort marks the run it names, and no other: it stays in flight with the same
/// workers, counted as aborted from then on. Aborting an unknown run changes nothing.
pub proof fn law_an_abort_marks_one_run(runs: Seq<RunRecord>, id: Seq<char>, i: int)
    requires
        distinct_runs(runs),
        0 <= i < runs.len(),
    ensures
        aborted_in(runs, id).len() == runs.len(),
        runs[i].run_id == id ==> {
            &&& aborted_in(runs, id)[i].cancelled
            &&& aborted_in(runs, id)[i].run_id == id
            &&& aborted_in(runs, id)[i].worker_addrs == runs[i].worker_addrs
            &&& is_cancelled(aborted_in(runs, id), id)
        },
        runs[i].run_id != id ==> aborted_in(runs, id)[i] == runs[i],
{
    lemma_run_at(runs, id);
    let at = run_at(runs, id);
    if runs[i].run_id == id {
        assert(at == i) by {
            if at < i {
                assert(runs[at].run_id != runs[i].run_id);
            } else if i < at {
                assert(runs[i].run_id != id);
            }
        }
        let after = aborted_in(runs, id);
        assert forall|k: int| 0 <= k < at implies (#[trigger] after[k]).run_id != id by {
            assert(runs[k].run_id != id);
        }
        lemma_run_at_is(after, id, at);
    }
}

/// An abort reaches every worker that takes part: there is one call for each address
/// of the run, sent there over http unless the address names a scheme, and it names
/// the run. A run that is not in flight is aborted nowhere.
pub proof fn law_an_abort_reaches_every_worker(
    calls: Seq<AbortCall>,
    runs: Seq<RunRecord>,
    id: Seq<char>,
    at: int,
    i: int,
)
    requires
        distinct_runs(runs),
        stops(calls, runs, id),
    ensures
        0 <= at < runs.len() && runs[at].run_id == id ==> calls.len()
            == runs[at].worker_addrs.len(),
        0 <= at < runs.len() && runs[at].run_id == id && 0 <= i < calls.len() ==> {
            let addr = runs[at].worker_addrs[i];
            &&& calls[i].request.run_id@ == id
            &&& calls[i].request.worker_id@.len() == 0
            &&& "http://"@.is_prefix_of(addr) || "https://"@.is_prefix_of(addr) ==> calls[i].url@
                == addr
            &&& !("http://"@.is_prefix_of(addr) || "https://"@.is_prefix_of(addr))
                ==> calls[i].url@ == "http://"@ + addr
        },
        (forall|k: int| 0 <= k < runs.len() ==> (#[trigger] runs[k]).run_id != id) ==> calls.len()
            == 0,
{
    lemma_run_at(runs, id);
    if 0 <= at < runs.len() && runs[at].run_id == id {
        assert forall|k: int| 0 <= k < at implies (#[trigger] runs[k]).run_id != id by {
            assert(runs[k].run_id != runs[at].run_id);
        }
        lemma_run_at_is(runs, id, at);
    }
}

/// A run that is over is forgotten, and no other is: it is no longer in flight, and
/// every other run still is.
pub proof fn law_a_finished_run_is_forgotten(runs: Seq<RunRecord>, id: Seq<char>, r: RunRecord)
    requires
        distinct_runs(runs),
    ensures
        without_run(runs, id).contains(r) <==> runs.contains(r) && r.run_id != id,
{
    lemma_run_at(runs, id);
    let at = run_at(runs, id);
    let after = without_run(runs, id);
    if after.contains(r) {
        let i = choose|i: int| 0 <= i < after.len() && after[i] == r;
        if at < runs.len() {
            let i0 = if i < at { i } else { i + 1 };
            assert(runs[i0] == r);
            if i0 < at {
                assert(runs[i0].run_id != runs[at].run_id);
            } else {
                assert(runs[at].run_id != runs[i0].run_id);
            }
        } else {
            assert(runs[i] == r);
            assert(runs[i].run_id != id);
        }
    }
    if runs.contains(r) && r.run_id != id {
        let i = choose|i: int| 0 <= i < runs.len() && runs[i] == r;
        if at < runs.len() {
            let i1 = if i < at { i } else { i - 1 };
            assert(after[i1] == r);
        } else {
            assert(after[i] == r);
        }
    }
}

/// The URL to dial is the address where that names http or https, and the address
/// behind `http://` where it does not.
pub proof fn law_an_address_without_a_scheme_is_http(addr: Seq<char>)
    ensures
        "http://"@.is_prefix_of(addr) || "https://"@.is_prefix_of(addr) ==> dial_text(addr) == addr,
        !("http://"@.is_prefix_of(addr) || "https://"@.is_prefix_of(addr)) ==> dial_text(addr)
            == "http://"@ + addr,
{
}

/// A run just noted is found, and can be aborted without touching another.
pub proof fn lemma_noted(runs: Seq<RunRecord>, r: RunRecord, other: Seq<char>)
    requires
        distinct_runs(runs),
        !r.cancelled,
        other != r.run_id,
    ensures
        ({
            let after = with_run(runs, r);
            let at = run_at(after, r.run_id);
            &&& 0 <= at < after.len() && after[at] == r
            &&& is_cancelled(aborted_in(after, r.run_id), r.run_id)
            &&& !is_cancelled(aborted_in(after, other), r.run_id)
        }),
{
    law_abort_sticks(runs, r);
    lemma_with_run(runs, r);
    let after = with_run(runs, r);
    let at = run_at(after, r.run_id);
    lemma_run_at(after, r.run_id);
    lemma_run_at(after, other);
    let else_aborted = aborted_in(after, other);
    assert forall|k: int| 0 <= k < at implies (#[trigger] else_aborted[k]).run_id != r.run_id by {
        assert(after[k].run_id != r.run_id);
    }
    lemma_run_at_is(else_aborted, r.run_id, at);
}

/// A run in flight stands where its id does.
pub proof fn lemma_run_found(runs: Seq<RunRecord>, id: Seq<char>, i: int)
    requires
        distinct_runs(runs),
        0 <= i < runs.len(),
        runs[i].run_id == id,
    ensures
        run_at(runs, id) == i,
{
    assert forall|k: int| 0 <= k < i implies (#[trigger] runs[k]).run_id != id by {
        assert(runs[k].run_id != runs[i].run_id);
    }
    lemma_run_at_is(runs, id, i);
}

} // verus!

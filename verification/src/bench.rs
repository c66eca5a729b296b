//! The bench client: what it asks of the control plane, how it reads the event
//! stream, and what it makes of what it saw.

use vstd::prelude::*;
use vstd::string::*;

use crate::rate::Rate;
use crate::{response, text};

verus! {

/// One server-sent event.
#[derive(Debug)]
pub struct SseEvent {
    pub name: String,
    pub data: String,
}

/// The lines of `s`: the pieces between its newlines.
pub open spec fn lines_of(s: Seq<char>) -> Seq<Seq<char>>
    decreases s.len(),
{
    if s.len() == 0 {
        seq![Seq::<char>::empty()]
    } else {
        let before = lines_of(s.drop_last());
        if s.last() == '\n' {
            before.push(Seq::empty())
        } else {
            before.drop_last().push(before.last().push(s.last()))
        }
    }
}

/// What has been read of an event: its name and its data.
pub struct EventView {
    pub name: Seq<char>,
    pub data: Seq<char>,
}

/// The event after one more line. A data line adds to the data, on a line of its
/// own where there is data already; an event line names the event; other lines
/// say nothing.
pub open spec fn with_line(e: EventView, raw: Seq<char>) -> EventView {
    let line = text::without_trailing(raw, '\r');
    if "data:"@.is_prefix_of(line) {
        let value = text::without_leading(line.skip(5), ' ');
        EventView {
            data: if e.data.len() > 0 {
                e.data.push('\n') + value
            } else {
                value
            },
            ..e
        }
    } else if "event:"@.is_prefix_of(line) {
        EventView { name: text::without_leading(line.skip(6), ' '), ..e }
    } else {
        e
    }
}

/// The event that the lines make up, in order; one that is not named is a
/// message.
pub open spec fn event_of(lines: Seq<Seq<char>>) -> EventView
    decreases lines.len(),
{
    if lines.len() == 0 {
        EventView { name: "message"@, data: Seq::empty() }
    } else {
        with_line(event_of(lines.drop_last()), lines.last())
    }
}

impl View for SseEvent {
    type V = EventView;

    open spec fn view(&self) -> EventView {
        EventView { name: self.name@, data: self.data@ }
    }
}

/// The event that a block of the stream holds, if it holds any data.
pub open spec fn event_in(block: Seq<char>) -> Option<EventView> {
    let e = event_of(lines_of(block));
    if e.data.len() > 0 {
        Some(e)
    } else {
        None
    }
}

/// `line` without its first `n` characters and the spaces that follow.
fn value_after(line: &Vec<char>, n: usize) -> (s: String)
    requires
        n <= line@.len(),
    ensures
        s@ == text::without_leading(line@.skip(n as int), ' '),
{
    let mut from: usize = n;
    while from < line.len() && line[from] == ' '
        invariant
            n <= from <= line@.len(),
            text::without_leading(line@.skip(n as int), ' ') == text::without_leading(
                line@.skip(from as int),
                ' ',
            ),
        decreases line.len() - from,
    {
        assert(line@.skip(from as int).drop_first() =~= line@.skip(from + 1));
        from = from + 1;
    }
    assert(line@.subrange(from as int, line@.len() as int) =~= line@.skip(from as int));
    text::string_of(line, from, line.len())
}

/// Read one line of an event.
fn take_line(e: &mut SseEvent, raw: &Vec<char>)
    ensures
        final(e)@ == with_line(old(e)@, raw@),
{
    let whole: String = text::string_of(raw, 0, raw.len());
    assert(raw@.subrange(0, raw@.len() as int) =~= raw@);
    let line: String = text::trim_end(&whole, '\r');
    let chars: Vec<char> = text::chars_of(&line);
    proof {
        reveal_strlit("data:");
        reveal_strlit("event:");
    }
    if text::starts_with(&line, "data:") {
        let value: String = value_after(&chars, 5);
        if !e.data.as_str().is_empty() {
            text::push_char(&mut e.data, '\n');
        }
        let ghost had = e.data@;
        e.data.append(value.as_str());
        assert(had.len() == 0 ==> had + value@ =~= value@);
    } else if text::starts_with(&line, "event:") {
        e.name = value_after(&chars, 6);
    }
}

/// The event that a block of the stream holds; none where the block has no data.
pub fn parse_sse(block: &str) -> (r: Option<SseEvent>)
    ensures
        r is Some <==> event_in(block@) is Some,
        r matches Some(e) ==> event_in(block@) == Some(e@),
{
    let chars: Vec<char> = text::chars_of(block);
    let mut e: SseEvent = SseEvent { name: "message".to_owned(), data: String::new() };
    let mut line: Vec<char> = Vec::new();
    let mut i: usize = 0;
    assert(chars@.take(0) =~= Seq::<char>::empty());
    assert(lines_of(Seq::<char>::empty()).drop_last() =~= Seq::<Seq<char>>::empty());
    while i < chars.len()
        invariant
            chars@ == block@,
            i <= chars@.len(),
            lines_of(chars@.take(i as int)).len() > 0,
            lines_of(chars@.take(i as int)).last() == line@,
            e@ == event_of(lines_of(chars@.take(i as int)).drop_last()),
        decreases chars.len() - i,
    {
        let ghost before = lines_of(chars@.take(i as int));
        let ghost after = lines_of(chars@.take(i + 1));
        assert(chars@.take(i + 1).drop_last() =~= chars@.take(i as int));
        let c: char = chars[i];
        if c == '\n' {
            take_line(&mut e, &line);
            line = Vec::new();
            assert(after.drop_last() =~= before);
            assert(line@ =~= Seq::<char>::empty());
        } else {
            line.push(c);
            assert(after.drop_last() =~= before.drop_last());
        }
        i = i + 1;
    }
    assert(chars@.take(chars@.len() as int) =~= block@);
    take_line(&mut e, &line);
    if e.data.as_str().is_empty() {
        None
    } else {
        Some(e)
    }
}

/// The text of the stream that does not make up a whole block yet.
#[derive(Debug)]
pub struct SseBuffer {
    buf: Vec<char>,
}

impl View for SseBuffer {
    type V = Seq<char>;

    closed spec fn view(&self) -> Seq<char> {
        self.buf@
    }
}

/// A blank line ends at `i`: two newlines follow each other there.
pub open spec fn breaks_at(s: Seq<char>, i: int) -> bool {
    0 <= i && i + 1 < s.len() && s[i] == '\n' && s[i + 1] == '\n'
}

/// The block at the start of `s` is `n` characters long, its blank line included.
pub open spec fn block_len(s: Seq<char>, n: int) -> bool {
    &&& 2 <= n <= s.len()
    &&& breaks_at(s, n - 2)
    &&& forall|i: int| 0 <= i < n - 2 ==> !breaks_at(s, i)
}

/// `blocks` and `rest` are `s` cut after every blank line: each block ends with
/// the first blank line in it, and `rest` has none.
pub open spec fn cut(s: Seq<char>, blocks: Seq<Seq<char>>, rest: Seq<char>) -> bool
    decreases blocks.len(),
{
    if blocks.len() == 0 {
        &&& rest == s
        &&& forall|i: int| !breaks_at(s, i)
    } else {
        let n = blocks.first().len() as int;
        &&& block_len(s, n)
        &&& blocks.first() == s.take(n)
        &&& cut(s.skip(n), blocks.drop_first(), rest)
    }
}

/// All blocks in a row.
pub open spec fn in_a_row(blocks: Seq<Seq<char>>) -> Seq<char>
    decreases blocks.len(),
{
    if blocks.len() == 0 {
        Seq::empty()
    } else {
        blocks.first() + in_a_row(blocks.drop_first())
    }
}

/// Cutting a stream into blocks loses nothing: the blocks in a row, and the rest
/// behind them, are the text that was cut.
pub proof fn law_cutting_loses_nothing(s: Seq<char>, blocks: Seq<Seq<char>>, rest: Seq<char>)
    requires
        cut(s, blocks, rest),
    ensures
        in_a_row(blocks) + rest == s,
    decreases blocks.len(),
{
    if blocks.len() == 0 {
        assert(in_a_row(blocks) + rest =~= s);
    } else {
        let n = blocks.first().len() as int;
        law_cutting_loses_nothing(s.skip(n), blocks.drop_first(), rest);
        assert(in_a_row(blocks) + rest =~= s.take(n) + (in_a_row(blocks.drop_first()) + rest));
        assert(s.take(n) + s.skip(n) =~= s);
    }
}

proof fn lemma_cut_push(s: Seq<char>, blocks: Seq<Seq<char>>, tail: Seq<char>, n: int)
    requires
        cut_so_far(s, blocks, tail),
        block_len(tail, n),
    ensures
        cut_so_far(s, blocks.push(tail.take(n)), tail.skip(n)),
    decreases blocks.len(),
{
    let more = blocks.push(tail.take(n));
    if blocks.len() == 0 {
        assert(more.drop_first() =~= Seq::<Seq<char>>::empty());
        assert(cut_so_far(s.skip(n), more.drop_first(), tail.skip(n)));
    } else {
        let m = blocks.first().len() as int;
        lemma_cut_push(s.skip(m), blocks.drop_first(), tail, n);
        assert(more.drop_first() =~= blocks.drop_first().push(tail.take(n)));
    }
}

/// Like `cut`, with blank lines left in the tail.
spec fn cut_so_far(s: Seq<char>, blocks: Seq<Seq<char>>, tail: Seq<char>) -> bool
    decreases blocks.len(),
{
    if blocks.len() == 0 {
        tail == s
    } else {
        let n = blocks.first().len() as int;
        &&& block_len(s, n)
        &&& blocks.first() == s.take(n)
        &&& cut_so_far(s.skip(n), blocks.drop_first(), tail)
    }
}

proof fn lemma_cut_done(s: Seq<char>, blocks: Seq<Seq<char>>, tail: Seq<char>)
    requires
        cut_so_far(s, blocks, tail),
        forall|i: int| !breaks_at(tail, i),
    ensures
        cut(s, blocks, tail),
    decreases blocks.len(),
{
    if blocks.len() > 0 {
        let n = blocks.first().len() as int;
        lemma_cut_done(s.skip(n), blocks.drop_first(), tail);
    }
}

impl SseBuffer {
    pub fn new() -> (b: Self)
        ensures
            b@ == Seq::<char>::empty(),
    {
        SseBuffer { buf: Vec::new() }
    }

    /// Take in text. The blocks that are whole now come back, in order.
    pub fn push_text(&mut self, more: &str) -> (blocks: Vec<String>)
        ensures
            cut(old(self)@ + more@, text::texts(blocks@), final(self)@),
    {
        let mut added: Vec<char> = text::chars_of(more);
        let ghost all = self.buf@ + more@;
        let mut whole: Vec<char> = Vec::new();
        std::mem::swap(&mut whole, &mut self.buf);
        whole.append(&mut added);
        assert(whole@ =~= all);
        let mut blocks: Vec<String> = Vec::new();
        let mut start: usize = 0;
        let mut i: usize = 0;
        assert(text::texts(blocks@) =~= Seq::<Seq<char>>::empty());
        assert(whole@.skip(0) =~= all);
        while i < whole.len()
            invariant
                whole@ == all,
                start <= i <= whole@.len(),
                cut_so_far(all, text::texts(blocks@), whole@.skip(start as int)),
                forall|k: int| start <= k && k + 1 < i ==> !#[trigger] breaks_at(whole@, k),
            decreases whole.len() - i,
        {
            let ghost tail = whole@.skip(start as int);
            if i > start && whole[i] == '\n' && whole[i - 1] == '\n' {
                let block: String = text::string_of(&whole, start, i + 1);
                proof {
                    let n = i + 1 - start;
                    assert(block@ =~= tail.take(n));
                    assert(breaks_at(tail, n - 2));
                    assert forall|k: int| 0 <= k < n - 2 implies !breaks_at(tail, k) by {
                        assert(!breaks_at(whole@, start + k));
                        assert(tail[k] == whole@[start + k]);
                        assert(tail[k + 1] == whole@[start + k + 1]);
                    }
                    lemma_cut_push(all, text::texts(blocks@), tail, n);
                    assert(tail.skip(n) =~= whole@.skip(i + 1));
                }
                let ghost before = text::texts(blocks@);
                blocks.push(block);
                assert(text::texts(blocks@) =~= before.push(block@));
                start = i + 1;
            }
            i = i + 1;
        }
        let rest: Vec<char> = whole.split_off(start);
        proof {
            let tail = all.skip(start as int);
            assert(rest@ =~= tail);
            assert forall|k: int| !breaks_at(tail, k) by {
                if breaks_at(tail, k) {
                    assert(!breaks_at(all, start + k));
                    assert(tail[k] == all[start + k]);
                    assert(tail[k + 1] == all[start + k + 1]);
                }
            }
            lemma_cut_done(all, text::texts(blocks@), tail);
        }
        self.buf = rest;
        blocks
    }

    /// Take in bytes of the stream.
    pub fn push_chunk(&mut self, bytes: &[u8]) -> (blocks: Vec<String>)
        ensures
            cut(
                old(self)@ + text::lossy_text(bytes@),
                text::texts(blocks@),
                final(self)@,
            ),
    {
        let more: String = text::text_lossy(bytes);
        self.push_text(&more)
    }
}

/// Whether an event is a tick of the run.
pub fn is_tick(e: &SseEvent) -> (b: bool)
    ensures
        b == (e@.name == "tick"@),
{
    text::same(&e.name, "tick")
}

/// What the client reads of a tick.
#[derive(Debug, Clone, Copy, PartialEq, Eq, Structural)]
pub struct ClientTick {
    pub elapsed_s: u64,
    pub completed_total: u64,
    pub pass_total: u64,
    pub fail_status_total: u64,
    pub total: u64,
    pub pass: u64,
    pub fail_latency: u64,
    pub fail_size: u64,
    pub fail_content_type: u64,
    pub p50_us: u64,
    pub p99_us: u64,
}

/// What the client has seen of a run. Ticks carry a running total of status
/// failures; the other tiers are added up here.
#[derive(Debug, Clone, Copy, PartialEq, Eq, Structural)]
pub struct TickAccum {
    pub last: Option<ClientTick>,
    pub received: u64,
    pub fail_status_total: u64,
    pub fail_latency_total: u64,
    pub fail_size_total: u64,
    pub fail_content_type_total: u64,
}

impl TickAccum {
    /// Another tick can be counted in.
    pub open spec fn accepts(self, t: ClientTick) -> bool {
        &&& self.received < u64::MAX
        &&& self.fail_latency_total + t.fail_latency <= u64::MAX
        &&& self.fail_size_total + t.fail_size <= u64::MAX
        &&& self.fail_content_type_total + t.fail_content_type <= u64::MAX
    }

    /// With one more tick counted in.
    pub open spec fn with(self, t: ClientTick) -> TickAccum {
        TickAccum {
            last: Some(t),
            received: (self.received + 1) as u64,
            fail_status_total: t.fail_status_total,
            fail_latency_total: (self.fail_latency_total + t.fail_latency) as u64,
            fail_size_total: (self.fail_size_total + t.fail_size) as u64,
            fail_content_type_total: (self.fail_content_type_total + t.fail_content_type) as u64,
        }
    }

    pub fn new() -> (a: Self)
        ensures
            a == (TickAccum {
                last: None,
                received: 0,
                fail_status_total: 0,
                fail_latency_total: 0,
                fail_size_total: 0,
                fail_content_type_total: 0,
            }),
    {
        TickAccum {
            last: None,
            received: 0,
            fail_status_total: 0,
            fail_latency_total: 0,
            fail_size_total: 0,
            fail_content_type_total: 0,
        }
    }

    /// Count one tick in. Returns whether the counts still fit; where they do not,
    /// nothing changes.
    pub fn observe(&mut self, t: &ClientTick) -> (fits: bool)
        ensures
            fits == old(self).accepts(*t),
            *final(self) == if fits {
                old(self).with(*t)
            } else {
                *old(self)
            },
    {
        if self.received == u64::MAX || t.fail_latency > u64::MAX - self.fail_latency_total
            || t.fail_size > u64::MAX - self.fail_size_total || t.fail_content_type > u64::MAX
            - self.fail_content_type_total {
            return false;
        }
        self.fail_status_total = t.fail_status_total;
        self.fail_latency_total = self.fail_latency_total + t.fail_latency;
        self.fail_size_total = self.fail_size_total + t.fail_size;
        self.fail_content_type_total = self.fail_content_type_total + t.fail_content_type;
        self.last = Some(*t);
        self.received = self.received + 1;
        true
    }
}

/// The client's arguments.
#[derive(Debug)]
pub struct BenchArgs {
    pub target: String,
    pub method: String,
    pub rps: Rate,
    pub duration_s: u64,
    pub connections: u32,
    pub load_model: String,
    pub expected_status: Vec<u16>,
    pub max_latency_ms: Option<u64>,
    pub name: Option<String>,
    /// Sent to the target as a bearer token.
    pub key: Option<String>,
    pub timeout_ms: u64,
}

/// The target in a request to the control plane.
#[derive(Debug)]
pub struct TargetSpec {
    pub url: String,
    pub method: String,
    pub headers: Vec<(String, String)>,
    pub timeout_ms: u64,
    pub verify_tls: bool,
}

/// A request to the control plane to create a run.
#[derive(Debug)]
pub struct CreateRunRequest {
    pub name: Option<String>,
    pub target: TargetSpec,
    pub target_rps: Rate,
    pub duration_s: u64,
    pub load_model: String,
    pub connections: u32,
    pub keepalive: bool,
    /// Left out where no status is expected in particular.
    pub expected_status: Option<Vec<u16>>,
    pub max_latency_us: Option<u64>,
    pub rate_limit_action: String,
    pub record_onset: bool,
}

impl CreateRunRequest {
    /// The request for the run that the arguments describe.
    pub open spec fn requests(self, args: BenchArgs) -> bool {
        &&& response::text_view(self.name) == response::text_view(args.name)
        &&& self.target.url@ == args.target@
        &&& self.target.method@ == text::uppered(args.method@)
        &&& match response::text_view(args.key) {
            Some(k) => {
                &&& self.target.headers@.len() == 1
                &&& self.target.headers@[0].0@ == "Authorization"@
                &&& self.target.headers@[0].1@ == "Bearer "@ + k
            },
            None => self.target.headers@.len() == 0,
        }
        &&& self.target.timeout_ms == args.timeout_ms
        &&& self.target.verify_tls
        &&& self.target_rps == args.rps
        &&& self.duration_s == args.duration_s
        &&& self.load_model@ == args.load_model@
        &&& self.connections == args.connections
        &&& self.keepalive
        &&& match self.expected_status {
            Some(v) => args.expected_status@.len() > 0 && v@ == args.expected_status@,
            None => args.expected_status@.len() == 0,
        }
        &&& self.max_latency_us == match args.max_latency_ms {
            Some(ms) => Some((ms * 1000) as u64),
            None => None,
        }
        &&& self.rate_limit_action@ == "backoff"@
        &&& self.record_onset
    }
}

/// The request for the run that the arguments describe.
pub fn build_create_request(args: &BenchArgs) -> (r: CreateRunRequest)
    requires
        args.max_latency_ms matches Some(ms) ==> ms * 1000 <= u64::MAX,
    ensures
        r.requests(*args),
{
    let mut headers: Vec<(String, String)> = Vec::new();
    if let Some(key) = &args.key {
        headers.push(("Authorization".to_owned(), text::joined("Bearer ", key)));
    }
    CreateRunRequest {
        name: match &args.name {
            Some(n) => Some(n.clone()),
            None => None,
        },
        target: TargetSpec {
            url: args.target.clone(),
            method: text::to_upper(&args.method),
            headers,
            timeout_ms: args.timeout_ms,
            verify_tls: true,
        },
        target_rps: args.rps,
        duration_s: args.duration_s,
        load_model: args.load_model.clone(),
        connections: args.connections,
        keepalive: true,
        expected_status: if args.expected_status.len() > 0 {
            Some(args.expected_status.clone())
        } else {
            None
        },
        max_latency_us: match args.max_latency_ms {
            Some(ms) => Some(ms * 1000),
            None => None,
        },
        rate_limit_action: "backoff".to_owned(),
        record_onset: true,
    }
}

/// `base` without trailing slashes.
pub open spec fn base_text(base: Seq<char>) -> Seq<char> {
    text::without_trailing(base, '/')
}

/// Where runs are created.
pub open spec fn runs_at(control: Seq<char>) -> Seq<char> {
    base_text(control) + "/v1/runs"@
}

/// Where a run's events are streamed.
pub open spec fn stream_at(control: Seq<char>, run_id: Seq<char>) -> Seq<char> {
    base_text(control) + "/v1/runs/"@ + run_id + "/stream"@
}

/// Where a run is aborted.
pub open spec fn abort_at(control: Seq<char>, run_id: Seq<char>) -> Seq<char> {
    base_text(control) + "/v1/runs/"@ + run_id + "/abort"@
}

/// Where a run is shown.
pub open spec fn dashboard_at(web: Seq<char>, run_id: Seq<char>) -> Seq<char> {
    base_text(web) + "/runs/"@ + run_id
}

/// Where runs are created.
pub fn runs_url(control: &str) -> (s: String)
    ensures
        s@ == runs_at(control@),
{
    let mut s: String = text::trim_end(control, '/');
    s.append("/v1/runs");
    s
}

/// Where a run's events are streamed.
pub fn stream_url(control: &str, run_id: &str) -> (s: String)
    ensures
        s@ == stream_at(control@, run_id@),
{
    let mut s: String = text::trim_end(control, '/');
    s.append("/v1/runs/");
    s.append(run_id);
    s.append("/stream");
    s
}

/// Where a run is aborted.
pub fn abort_url(control: &str, run_id: &str) -> (s: String)
    ensures
        s@ == abort_at(control@, run_id@),
{
    let mut s: String = text::trim_end(control, '/');
    s.append("/v1/runs/");
    s.append(run_id);
    s.append("/abort");
    s
}

/// Where a run is shown.
pub fn dashboard_url(web: &str, run_id: &str) -> (s: String)
    ensures
        s@ == dashboard_at(web@, run_id@),
{
    let mut s: String = text::trim_end(web, '/');
    s.append("/runs/");
    s.append(run_id);
    s
}

/// Seconds beyond the run's duration that the client waits for the last tick.
pub const GRACE_S: u64 = 5;

/// How long to follow a run, in seconds.
pub open spec fn patience_s(duration_s: u64) -> int {
    duration_s + GRACE_S
}

/// How long to follow a run, in seconds.
pub fn total_wait_s(duration_s: u64) -> (s: u64)
    requires
        duration_s + GRACE_S <= u64::MAX,
    ensures
        s == patience_s(duration_s),
{
    duration_s + GRACE_S
}

/// How following a run's events ended.
#[derive(Debug, Clone, Copy, PartialEq, Eq, Structural)]
pub enum StreamEnd {
    /// The stream came to its end.
    Ended,
    /// The stream failed.
    Failed,
    /// The time was up.
    TimedOut,
    /// The user interrupted.
    Interrupted,
}

/// What became of the run.
#[derive(Debug, Clone, Copy, PartialEq, Eq, Structural)]
pub enum ExitKind {
    Completed,
    Aborted,
    /// No tick ever came.
    EngineError,
    /// The stream failed before the first tick.
    StreamError,
}

/// What becomes of a run of which `received` ticks were seen: a stream that fails
/// after the first tick does no harm.
pub open spec fn conclusion(end: StreamEnd, received: u64) -> ExitKind {
    if end == StreamEnd::Interrupted {
        ExitKind::Aborted
    } else if received > 0 {
        ExitKind::Completed
    } else if end == StreamEnd::Failed {
        ExitKind::StreamError
    } else {
        ExitKind::EngineError
    }
}

/// What becomes of a run of which `received` ticks were seen.
pub fn conclude(end: StreamEnd, received: u64) -> (k: ExitKind)
    ensures
        k == conclusion(end, received),
{
    match end {
        StreamEnd::Interrupted => ExitKind::Aborted,
        StreamEnd::Failed => {
            if received == 0 {
                ExitKind::StreamError
            } else {
                ExitKind::Completed
            }
        },
        _ => {
            if received == 0 {
                ExitKind::EngineError
            } else {
                ExitKind::Completed
            }
        },
    }
}

impl ExitKind {
    /// The process's exit code.
    pub open spec fn exit_code(self) -> int {
        if self == ExitKind::Completed {
            0
        } else {
            1
        }
    }

    /// The process's exit code.
    pub fn code(&self) -> (c: u8)
        ensures
            c == self.exit_code(),
    {
        match self {
            ExitKind::Completed => 0,
            _ => 1,
        }
    }
}

/// Why a run could not be followed at all.
#[derive(Debug, Clone, Copy, PartialEq, Eq, Structural)]
pub enum BenchError {
    /// The control plane cannot be reached.
    Unreachable,
    /// The control plane turned the request down.
    BadSpec,
    Internal,
}

impl BenchError {
    /// The process's exit code.
    pub open spec fn exit_code(self) -> int {
        if self == BenchError::Internal {
            1
        } else {
            2
        }
    }

    /// The process's exit code.
    pub fn code(&self) -> (c: u8)
        ensures
            c == self.exit_code(),
    {
        match self {
            BenchError::Internal => 1,
            _ => 2,
        }
    }
}

/// The status code that answers a request to create a run, if it is granted.
pub const CREATED: u16 = 201;

/// What the status of the answer says of a request to create a run: nothing
/// where it is granted.
pub open spec fn refusal_of(status: u16) -> Option<BenchError> {
    if status == CREATED {
        None
    } else {
        Some(BenchError::BadSpec)
    }
}

/// What the status of the answer says of a request to create a run: nothing
/// where it is granted.
pub fn create_refusal(status: u16) -> (r: Option<BenchError>)
    ensures
        r == refusal_of(status),
{
    if status == CREATED {
        None
    } else {
        Some(BenchError::BadSpec)
    }
}

/// A text without a newline in it.
pub open spec fn is_one_line(s: Seq<char>) -> bool {
    forall|i: int| 0 <= i < s.len() ==> #[trigger] s[i] != '\n'
}

/// Lines are what stands between newlines: a text without any is one line, and a
/// newline behind a text, with more behind it, adds that as one line more.
pub proof fn law_newlines_part_lines(s: Seq<char>, line: Seq<char>)
    requires
        is_one_line(line),
    ensures
        lines_of(line) == seq![line],
        lines_of(s.push('\n') + line) == lines_of(s).push(line),
    decreases line.len(),
{
    if line.len() == 0 {
        assert(s.push('\n') + line =~= s.push('\n'));
        assert(s.push('\n').drop_last() =~= s);
        assert(line =~= Seq::<char>::empty());
        assert(lines_of(s).push(Seq::<char>::empty()) =~= lines_of(s).push(line));
        assert(lines_of(line) =~= seq![line]);
    } else {
        let front = line.drop_last();
        assert forall|i: int| 0 <= i < front.len() implies #[trigger] front[i] != '\n' by {
            assert(front[i] == line[i]);
        }
        law_newlines_part_lines(s, front);
        assert(line[line.len() - 1] != '\n');
        assert((s.push('\n') + line).drop_last() =~= s.push('\n') + front);
        assert(front.push(line.last()) =~= line);
        assert(lines_of(s).push(front).drop_last() =~= lines_of(s));
        assert(seq![front].drop_last() =~= Seq::<Seq<char>>::empty());
        assert(Seq::<Seq<char>>::empty().push(line) =~= seq![line]);
    }
}

/// What one line says. Behind `data:` stands data, one more line of it where there is
/// some already, behind `event:` the event's name, a space in between or not and a
/// carriage return at the end or not; and any other line says nothing.
pub proof fn law_a_line_adds_data_or_names_the_event(e: EventView, value: Seq<char>)
    requires
        value.len() > 0 ==> value.first() != ' ' && value.last() != '\r',
    ensures
        with_line(e, "data: "@ + value).name == e.name,
        with_line(e, "data: "@ + value).data == if e.data.len() > 0 {
            e.data.push('\n') + value
        } else {
            value
        },
        with_line(e, "data:"@ + value) == with_line(e, "data: "@ + value),
        with_line(e, ("data: "@ + value).push('\r')) == with_line(e, "data: "@ + value),
        with_line(e, "event: "@ + value).name == value,
        with_line(e, "event: "@ + value).data == e.data,
        !"data:"@.is_prefix_of(value) && !"event:"@.is_prefix_of(value) ==> with_line(e, value)
            == e,
{
    reveal_strlit("data:");
    reveal_strlit("data: ");
    reveal_strlit("event:");
    reveal_strlit("event: ");
    lemma_no_trailing("data: "@ + value, '\r');
    lemma_no_trailing("data:"@ + value, '\r');
    lemma_no_trailing("event: "@ + value, '\r');
    lemma_no_trailing(value, '\r');
    let long = ("data: "@ + value).push('\r');
    assert(long.drop_last() =~= "data: "@ + value);
    assert("data:"@.is_prefix_of("data: "@ + value)) by {
        assert("data:"@ =~= ("data: "@ + value).take(5));
    }
    assert("data:"@.is_prefix_of("data:"@ + value)) by {
        assert("data:"@ =~= ("data:"@ + value).take(5));
    }
    assert("event:"@.is_prefix_of("event: "@ + value)) by {
        assert("event:"@ =~= ("event: "@ + value).take(6));
    }
    assert(!"data:"@.is_prefix_of("event: "@ + value)) by {
        assert(("event: "@ + value)[0] == 'e');
        assert("data:"@[0] == 'd');
    }
    assert(("data: "@ + value).skip(5).drop_first() =~= value);
    assert(("data: "@ + value).skip(5)[0] == ' ');
    assert(("data:"@ + value).skip(5) =~= value);
    assert(("event: "@ + value).skip(6).drop_first() =~= value);
    assert(("event: "@ + value).skip(6)[0] == ' ');
    assert(text::without_leading(value, ' ') == value);
}

proof fn lemma_no_trailing(s: Seq<char>, c: char)
    requires
        s.len() > 0 ==> s.last() != c,
    ensures
        text::without_trailing(s, c) == s,
{
}

/// A block reads back as the event that it was written for: a name on one line, the
/// data on the next and an empty line behind them give that name and that data, and a
/// block of data alone is a message.
pub proof fn law_an_event_reads_back(name: Seq<char>, data: Seq<char>)
    requires
        is_one_line(name),
        is_one_line(data),
        name.len() > 0 ==> name.first() != ' ' && name.last() != '\r',
        data.len() > 0,
        data.first() != ' ' && data.last() != '\r',
    ensures
        ({
            let block = ("event: "@ + name).push('\n') + ("data: "@ + data);
            let whole = block.push('\n').push('\n');
            event_in(whole) matches Some(e) && e.name == name && e.data == data
        }),
        event_in("data: "@ + data) matches Some(e) && e.name == "message"@ && e.data == data,
        event_in("event: "@ + name) is None,
{
    reveal_strlit("data: ");
    reveal_strlit("event: ");
    let first = "event: "@ + name;
    let second = "data: "@ + data;
    assert forall|i: int| 0 <= i < first.len() implies #[trigger] first[i] != '\n' by {
        if i >= 7 {
            assert(first[i] == name[i - 7]);
        }
    }
    assert forall|i: int| 0 <= i < second.len() implies #[trigger] second[i] != '\n' by {
        if i >= 6 {
            assert(second[i] == data[i - 6]);
        }
    }
    let block = first.push('\n') + second;
    let none = Seq::<char>::empty();
    law_newlines_part_lines(none, first);
    law_newlines_part_lines(first, second);
    law_newlines_part_lines(none, second);
    assert(is_one_line(none));
    law_newlines_part_lines(block, none);
    assert(block.push('\n') + none =~= block.push('\n'));
    law_newlines_part_lines(block.push('\n'), none);
    assert(block.push('\n').push('\n') + none =~= block.push('\n').push('\n'));
    let start = EventView { name: "message"@, data: none };
    let named = with_line(start, first);
    let full = with_line(named, second);
    law_a_line_adds_data_or_names_the_event(start, name);
    law_a_line_adds_data_or_names_the_event(start, data);
    law_a_line_adds_data_or_names_the_event(named, data);
    law_a_line_adds_data_or_names_the_event(full, none);
    lemma_empty_line_says_nothing(full);
    let one = seq![first];
    let two = one.push(second);
    let three = two.push(none);
    let four = three.push(none);
    assert(event_of(Seq::<Seq<char>>::empty()) == start);
    assert(one.drop_last() =~= Seq::<Seq<char>>::empty());
    assert(one.last() == first);
    assert(event_of(one) == named);
    assert(two.drop_last() =~= one);
    assert(event_of(two) == full);
    assert(three.drop_last() =~= two);
    assert(event_of(three) == full);
    assert(four.drop_last() =~= three);
    assert(event_of(four) == full);
    assert(seq![second].drop_last() =~= Seq::<Seq<char>>::empty());
    assert(seq![second].last() == second);
    assert(event_of(seq![second]) == with_line(start, second));
    assert(lines_of(first) == one);
}

proof fn lemma_empty_line_says_nothing(e: EventView)
    ensures
        with_line(e, Seq::empty()) == e,
{
    reveal_strlit("data:");
    reveal_strlit("event:");
    let none = Seq::<char>::empty();
    assert(text::without_trailing(none, '\r') == none);
    assert(!"data:"@.is_prefix_of(none));
    assert(!"event:"@.is_prefix_of(none));
}

/// Every block ends with a blank line, the first one in it, and what is left over has
/// none.
pub proof fn law_a_block_ends_at_its_first_blank_line(
    s: Seq<char>,
    blocks: Seq<Seq<char>>,
    rest: Seq<char>,
    i: int,
    k: int,
)
    requires
        cut(s, blocks, rest),
    ensures
        0 <= i < blocks.len() ==> {
            let b = blocks[i];
            &&& b.len() >= 2 && b[b.len() - 1] == '\n' && b[b.len() - 2] == '\n'
            &&& 0 <= k < b.len() - 2 ==> !(b[k] == '\n' && b[k + 1] == '\n')
        },
        0 <= k < rest.len() - 1 ==> !(rest[k] == '\n' && rest[k + 1] == '\n'),
    decreases blocks.len(),
{
    if blocks.len() > 0 {
        let n = blocks.first().len() as int;
        law_a_block_ends_at_its_first_blank_line(s.skip(n), blocks.drop_first(), rest, i - 1, k);
        if i == 0 && 0 <= k < n - 2 {
            assert(!breaks_at(s, k));
        }
        if i > 0 && i < blocks.len() {
            assert(blocks.drop_first()[i - 1] == blocks[i]);
        }
    } else if 0 <= k < rest.len() - 1 {
        assert(!breaks_at(s, k));
    }
}

/// It does not matter in which pieces the stream comes in: cutting what has come, and
/// then what was left over together with what comes next, gives the blocks and the
/// rest that cutting all of it at once gives.
pub proof fn law_chunks_may_end_anywhere(
    s: Seq<char>,
    blocks: Seq<Seq<char>>,
    rest: Seq<char>,
    more: Seq<char>,
    more_blocks: Seq<Seq<char>>,
    more_rest: Seq<char>,
)
    requires
        cut(s, blocks, rest),
        cut(rest + more, more_blocks, more_rest),
    ensures
        cut(s + more, blocks + more_blocks, more_rest),
    decreases blocks.len(),
{
    if blocks.len() == 0 {
        assert(blocks + more_blocks =~= more_blocks);
    } else {
        let n = blocks.first().len() as int;
        law_chunks_may_end_anywhere(
            s.skip(n),
            blocks.drop_first(),
            rest,
            more,
            more_blocks,
            more_rest,
        );
        let all = s + more;
        assert(all.take(n) =~= s.take(n));
        assert(all.skip(n) =~= s.skip(n) + more);
        assert((blocks + more_blocks).drop_first() =~= blocks.drop_first() + more_blocks);
        assert((blocks + more_blocks).first() == blocks.first());
        assert(breaks_at(all, n - 2)) by {
            assert(breaks_at(s, n - 2));
        }
        assert forall|i: int| 0 <= i < n - 2 implies !breaks_at(all, i) by {
            assert(!breaks_at(s, i));
        }
    }
}

/// There is one way to cut a stream.
pub proof fn law_a_stream_is_cut_one_way(
    s: Seq<char>,
    a: Seq<Seq<char>>,
    rest_a: Seq<char>,
    b: Seq<Seq<char>>,
    rest_b: Seq<char>,
)
    requires
        cut(s, a, rest_a),
        cut(s, b, rest_b),
    ensures
        a == b,
        rest_a == rest_b,
    decreases a.len(),
{
    if a.len() == 0 {
        if b.len() > 0 {
            assert(breaks_at(s, b.first().len() - 2));
        }
        assert(a =~= b);
    } else {
        let n = a.first().len() as int;
        assert(breaks_at(s, n - 2));
        assert(b.len() > 0);
        let m = b.first().len() as int;
        assert(breaks_at(s, m - 2));
        assert(n == m);
        law_a_stream_is_cut_one_way(s.skip(n), a.drop_first(), rest_a, b.drop_first(), rest_b);
        assert(a =~= seq![a.first()] + a.drop_first());
        assert(b =~= seq![b.first()] + b.drop_first());
    }
}

/// The sum of one count over the ticks.
pub open spec fn over_ticks(ticks: Seq<ClientTick>, count: spec_fn(ClientTick) -> u64) -> nat
    decreases ticks.len(),
{
    if ticks.len() == 0 {
        0
    } else {
        over_ticks(ticks.drop_last(), count) + count(ticks.last()) as nat
    }
}

/// What the client has seen of a run after these ticks: how many they were, the last
/// of them, the status failures that it tells in all, and the sums of the failures of
/// the other tiers.
pub proof fn law_the_client_adds_up_its_ticks(states: Seq<TickAccum>, ticks: Seq<ClientTick>)
    requires
        states.len() == ticks.len() + 1,
        states.first().received == 0,
        states.first().last is None,
        states.first().fail_latency_total == 0,
        states.first().fail_size_total == 0,
        states.first().fail_content_type_total == 0,
        forall|i: int|
            0 <= i < ticks.len() ==> states[i].accepts(#[trigger] ticks[i]) && states[i + 1]
                == states[i].with(ticks[i]),
    ensures
        states.last().received == ticks.len(),
        states.last().fail_latency_total == over_ticks(ticks, |t: ClientTick| t.fail_latency),
        states.last().fail_size_total == over_ticks(ticks, |t: ClientTick| t.fail_size),
        states.last().fail_content_type_total == over_ticks(
            ticks,
            |t: ClientTick| t.fail_content_type,
        ),
        ticks.len() > 0 ==> states.last().last == Some(ticks.last()),
        ticks.len() > 0 ==> states.last().fail_status_total == ticks.last().fail_status_total,
        ticks.len() == 0 ==> states.last().last is None,
    decreases ticks.len(),
{
    if ticks.len() > 0 {
        let n = ticks.len() - 1;
        let fewer = states.drop_last();
        assert forall|i: int| 0 <= i < n implies fewer[i].accepts(#[trigger] ticks.drop_last()[i])
            && fewer[i + 1] == fewer[i].with(ticks.drop_last()[i]) by {
            assert(states[i].accepts(ticks[i]) && states[i + 1] == states[i].with(ticks[i]));
        }
        law_the_client_adds_up_its_ticks(fewer, ticks.drop_last());
        assert(states[n].accepts(ticks[n]) && states[n + 1] == states[n].with(ticks[n]));
    }
}

/// A tick is turned down only where a count would not fit any more.
pub proof fn law_a_tick_that_fits_is_counted(a: TickAccum, t: ClientTick)
    ensures
        a.accepts(t) <==> a.received + 1 <= u64::MAX && a.fail_latency_total + t.fail_latency
            <= u64::MAX && a.fail_size_total + t.fail_size <= u64::MAX && a.fail_content_type_total
            + t.fail_content_type <= u64::MAX,
{
}

/// A run counts as completed if any tick of it was seen and nobody interrupted it;
/// an interrupted one is aborted, seen or not; and one of which nothing was seen
/// failed, by the stream where that failed and by the engine where it did not.
pub proof fn law_a_run_that_was_seen_is_completed(end: StreamEnd, received: u64)
    ensures
        conclusion(end, received) == ExitKind::Completed <==> end != StreamEnd::Interrupted
            && received > 0,
        conclusion(end, received) == ExitKind::Aborted <==> end == StreamEnd::Interrupted,
        conclusion(end, received) == ExitKind::StreamError <==> end == StreamEnd::Failed
            && received == 0,
        conclusion(end, received) == ExitKind::EngineError <==> (end == StreamEnd::Ended || end
            == StreamEnd::TimedOut) && received == 0,
{
}

/// The client asks for the run that its arguments describe: a latency limit in
/// milliseconds becomes one in microseconds, a key goes to the target as a bearer
/// token, and the run backs off when rate limited and notes the onset.
pub proof fn law_the_client_asks_for_what_it_was_told(r: CreateRunRequest, args: BenchArgs)
    requires
        r.requests(args),
    ensures
        r.target.url@ == args.target@,
        r.target_rps == args.rps,
        r.duration_s == args.duration_s,
        r.connections == args.connections,
        r.target.timeout_ms == args.timeout_ms,
        args.max_latency_ms matches Some(ms) ==> (ms * 1000 <= u64::MAX ==> r.max_latency_us
            == Some((ms * 1000) as u64)),
        args.max_latency_ms is None ==> r.max_latency_us is None,
        args.key matches Some(k) ==> r.target.headers@.len() == 1
            && r.target.headers@[0].0@ == "Authorization"@ && r.target.headers@[0].1@
            == "Bearer "@ + k@,
        args.key is None ==> r.target.headers@.len() == 0,
        args.expected_status@.len() == 0 <==> r.expected_status is None,
        r.expected_status matches Some(v) ==> v@ == args.expected_status@,
        r.rate_limit_action@ == "backoff"@,
        r.record_onset && r.keepalive && r.target.verify_tls,
        r.target.method@.len() == args.method@.len(),
        forall|i: int|
            0 <= i < args.method@.len() ==> {
                let c = args.method@[i];
                (#[trigger] r.target.method@[i]) as u32 == if 'a' <= c <= 'z' {
                    c as u32 - 32
                } else {
                    c as int
                }
            },
{
    assert forall|i: int| 0 <= i < args.method@.len() implies {
        let c = args.method@[i];
        (#[trigger] r.target.method@[i]) as u32 == if 'a' <= c <= 'z' {
            c as u32 - 32
        } else {
            c as int
        }
    } by {
        text::law_case_is_ascii_case(args.method@[i]);
        assert(text::uppered(args.method@)[i] == text::upper_char(args.method@[i]));
    }
}

/// A slash at the end of an address makes no difference, and everything about one run
/// stands below the place where runs are created, under the run's id.
pub proof fn law_addresses_of_a_run(control: Seq<char>, run_id: Seq<char>)
    ensures
        runs_at(control.push('/')) == runs_at(control),
        stream_at(control.push('/'), run_id) == stream_at(control, run_id),
        abort_at(control.push('/'), run_id) == abort_at(control, run_id),
        dashboard_at(control.push('/'), run_id) == dashboard_at(control, run_id),
        stream_at(control, run_id) == runs_at(control).push('/') + run_id + "/stream"@,
        abort_at(control, run_id) == runs_at(control).push('/') + run_id + "/abort"@,
        control.len() > 0 && control.last() != '/' ==> {
            &&& runs_at(control) == control + "/v1/runs"@
            &&& dashboard_at(control, run_id) == control + "/runs/"@ + run_id
        },
{
    reveal_strlit("/v1/runs");
    reveal_strlit("/v1/runs/");
    assert(control.push('/').drop_last() =~= control);
    let base = base_text(control);
    assert("/v1/runs/"@ =~= "/v1/runs"@.push('/'));
    assert(base + "/v1/runs/"@ =~= (base + "/v1/runs"@).push('/'));
}

/// How the client ends: with 0 for a run that completed and with 1 for one that did
/// not; with 2 for a run that could not be started, because the control plane cannot
/// be reached or turned it down, which is any answer but 201. A run is followed for
/// five seconds longer than it lasts.
pub proof fn law_exit_codes_tell_what_went_wrong(status: u16, duration_s: u64)
    ensures
        ExitKind::Completed.exit_code() == 0,
        ExitKind::Aborted.exit_code() == 1,
        ExitKind::EngineError.exit_code() == 1,
        ExitKind::StreamError.exit_code() == 1,
        BenchError::Internal.exit_code() == 1,
        BenchError::Unreachable.exit_code() == 2,
        BenchError::BadSpec.exit_code() == 2,
        refusal_of(status) is None <==> status == 201,
        status != 201 ==> refusal_of(status) == Some(BenchError::BadSpec),
        patience_s(duration_s) == duration_s + 5,
{
}

} // verus!

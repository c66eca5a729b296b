//! Reading one HTTP/1.1 response off a connection.
//!
//! Bytes gather in a buffer of fixed capacity until they hold one complete
//! message, head and body. The body's length is what Content-Length says;
//! chunked encoding is not read.

use vstd::prelude::*;

use crate::text;

verus! {

/// Capacity of a connection's read buffer in bytes.
pub const READ_BUF_BYTES: usize = 65_536;

/// Most header lines that a response may have.
pub const MAX_HEADERS: usize = 32;

/// One header line.
#[derive(Debug)]
pub struct HeaderLine {
    pub name: String,
    pub value: Vec<u8>,
}

/// What a buffer's bytes hold of a response head.
#[derive(Debug)]
pub enum Head {
    /// A complete head: its length, the status code and the header lines.
    Complete { end: usize, code: Option<u16>, headers: Vec<HeaderLine> },
    /// The beginning of a head.
    Partial,
    /// No response head.
    Bad,
}

/// A header line as plain values: its name and its value.
pub type HeaderView = (Seq<char>, Seq<u8>);

/// `Head` as plain values.
pub enum HeadView {
    Complete { end: nat, code: Option<u16>, headers: Seq<HeaderView> },
    Partial,
    Bad,
}

impl View for HeaderLine {
    type V = HeaderView;

    open spec fn view(&self) -> HeaderView {
        (self.name@, self.value@)
    }
}

/// Header lines as plain values.
pub open spec fn header_views(headers: Seq<HeaderLine>) -> Seq<HeaderView> {
    Seq::new(headers.len(), |i: int| headers[i]@)
}

impl View for Head {
    type V = HeadView;

    open spec fn view(&self) -> HeadView {
        match *self {
            Head::Complete { end, code, headers } => HeadView::Complete {
                end: end as nat,
                code,
                headers: header_views(headers@),
            },
            Head::Partial => HeadView::Partial,
            Head::Bad => HeadView::Bad,
        }
    }
}

/// What `httparse::Response::parse` makes of `bytes` with room for
/// `max_headers` header lines.
pub uninterp spec fn response_head(bytes: Seq<u8>, max_headers: nat) -> HeadView;

/// `httparse::Response::parse`: the response head at the start of `bytes`. A
/// complete head ends within the bytes.
#[verifier::external_body]
fn parse_head(bytes: &[u8], max_headers: usize) -> (head: Head)
    ensures
        head@ == response_head(bytes@, max_headers as nat),
        head matches Head::Complete { end, .. } ==> end <= bytes@.len(),
{
    let mut lines = vec![httparse::EMPTY_HEADER; max_headers];
    let mut resp = httparse::Response::new(&mut lines);
    match resp.parse(bytes) {
        Ok(httparse::Status::Complete(end)) => {
            let line = |h: &httparse::Header| HeaderLine { name: h.name.to_string(), value: h.value.to_vec() };
            Head::Complete { end, code: resp.code, headers: resp.headers.iter().map(line).collect() }
        }
        Ok(httparse::Status::Partial) => Head::Partial,
        Err(_) => Head::Bad,
    }
}

/// Whether a header line has this name, given in lower case.
pub open spec fn is_named(h: HeaderView, name: Seq<char>) -> bool {
    text::lowered(h.0) == name
}

/// The value of a header line as text, without surrounding white space; `None`
/// where it is no valid UTF-8.
pub open spec fn value_text(h: HeaderView) -> Option<Seq<char>> {
    if vstd::utf8::valid_utf8(h.1) {
        Some(text::trimmed(vstd::utf8::decode_utf8(h.1)))
    } else {
        None
    }
}

/// The text of the last readable header line with this name, if there is one.
pub open spec fn header_text(headers: Seq<HeaderView>, name: Seq<char>) -> Option<Seq<char>>
    decreases headers.len(),
{
    if headers.len() == 0 {
        None
    } else if is_named(headers.last(), name) && value_text(headers.last()) is Some {
        value_text(headers.last())
    } else {
        header_text(headers.drop_last(), name)
    }
}

/// The body length that the head announces: 0 where it announces none, or
/// writes no number.
pub open spec fn announced_length(headers: Seq<HeaderView>) -> u64 {
    match header_text(headers, "content-length"@) {
        Some(s) => match text::parsed_u64(s) {
            Some(n) => n,
            None => 0,
        },
        None => 0,
    }
}

/// The content type in lower case, if the head names one.
pub open spec fn announced_type(headers: Seq<HeaderView>) -> Option<Seq<char>> {
    match header_text(headers, "content-type"@) {
        Some(s) => Some(text::lowered(s)),
        None => None,
    }
}

/// The wait that Retry-After asks for, in milliseconds; `None` where the head
/// has none, or writes no number of seconds.
pub open spec fn announced_retry_ms(headers: Seq<HeaderView>) -> Option<u64> {
    match header_text(headers, "retry-after"@) {
        Some(s) => match text::parsed_u64(s) {
            Some(n) => Some(if n * 1000 <= u64::MAX {
                (n * 1000) as u64
            } else {
                u64::MAX
            }),
            None => None,
        },
        None => None,
    }
}

/// One complete response, as far as the benchmark reads it.
#[derive(Debug)]
pub struct ParsedResponse {
    /// Length of the whole message in bytes.
    pub msg_len: usize,
    pub status: u16,
    pub content_length: u64,
    /// Content type in lower case.
    pub content_type_lc: Option<String>,
    /// The wait that Retry-After asks for.
    pub retry_after_ms: Option<u64>,
}

/// `ParsedResponse` as plain values.
pub struct ResponseView {
    pub msg_len: nat,
    pub status: u16,
    pub content_length: u64,
    pub content_type_lc: Option<Seq<char>>,
    pub retry_after_ms: Option<u64>,
}

/// An optional text as plain values.
pub open spec fn text_view(t: Option<String>) -> Option<Seq<char>> {
    match t {
        Some(s) => Some(s@),
        None => None,
    }
}

impl View for ParsedResponse {
    type V = ResponseView;

    open spec fn view(&self) -> ResponseView {
        ResponseView {
            msg_len: self.msg_len as nat,
            status: self.status,
            content_length: self.content_length,
            content_type_lc: text_view(self.content_type_lc),
            retry_after_ms: self.retry_after_ms,
        }
    }
}

/// Whether a buffer holds a complete response.
#[derive(Debug)]
pub enum ParseOutcome {
    Complete(ParsedResponse),
    NeedMore,
    Bad,
}

/// `ParseOutcome` as plain values.
pub enum OutcomeView {
    Complete(ResponseView),
    NeedMore,
    Bad,
}

impl View for ParseOutcome {
    type V = OutcomeView;

    open spec fn view(&self) -> OutcomeView {
        match *self {
            ParseOutcome::Complete(r) => OutcomeView::Complete(r@),
            ParseOutcome::NeedMore => OutcomeView::NeedMore,
            ParseOutcome::Bad => OutcomeView::Bad,
        }
    }
}

/// What `have` bytes that begin with `head` hold.
pub open spec fn outcome(head: HeadView, have: nat) -> OutcomeView {
    match head {
        HeadView::Complete { end, code, headers } => if have >= end + announced_length(headers) {
            OutcomeView::Complete(
                ResponseView {
                    msg_len: end + announced_length(headers) as nat,
                    status: match code {
                        Some(c) => c,
                        None => 0,
                    },
                    content_length: announced_length(headers),
                    content_type_lc: announced_type(headers),
                    retry_after_ms: announced_retry_ms(headers),
                },
            )
        } else {
            OutcomeView::NeedMore
        },
        HeadView::Partial => OutcomeView::NeedMore,
        HeadView::Bad => OutcomeView::Bad,
    }
}

/// The text of the last readable header line with this name.
fn find_header(headers: &Vec<HeaderLine>, name: &str) -> (r: Option<String>)
    ensures
        text_view(r) == header_text(header_views(headers@), name@),
{
    let ghost views = header_views(headers@);
    let mut i: usize = headers.len();
    assert(views.take(i as int) =~= views);
    while i > 0
        invariant
            i <= headers.len(),
            views == header_views(headers@),
            header_text(views, name@) == header_text(views.take(i as int), name@),
        decreases i,
    {
        let h: &HeaderLine = &headers[i - 1];
        assert(views.take(i as int).last() == h@);
        assert(views.take(i as int).drop_last() =~= views.take(i - 1));
        let low: String = text::to_lower(&h.name);
        if text::same(&low, name) {
            if let Some(value) = text::utf8_text(&h.value) {
                return Some(text::trim(value));
            }
        }
        i = i - 1;
    }
    None
}

/// What `have` bytes that begin with `head` hold.
pub fn read_head(head: &Head, have: usize) -> (r: ParseOutcome)
    ensures
        r@ == outcome(head@, have as nat),
        r matches ParseOutcome::Complete(p) ==> p.msg_len <= have && p.content_length <= p.msg_len,
{
    match head {
        Head::Partial => ParseOutcome::NeedMore,
        Head::Bad => ParseOutcome::Bad,
        Head::Complete { end, code, headers } => {
            let content_length: u64 = match find_header(headers, "content-length") {
                Some(s) => match text::parse_u64(&s) {
                    Some(n) => n,
                    None => 0,
                },
                None => 0,
            };
            if *end > have || content_length > (have - *end) as u64 {
                return ParseOutcome::NeedMore;
            }
            let content_type_lc: Option<String> = match find_header(headers, "content-type") {
                Some(s) => Some(text::to_lower(&s)),
                None => None,
            };
            let retry_after_ms: Option<u64> = match find_header(headers, "retry-after") {
                Some(s) => match text::parse_u64(&s) {
                    Some(n) => Some(
                        if n <= u64::MAX / 1000 {
                            n * 1000
                        } else {
                            u64::MAX
                        },
                    ),
                    None => None,
                },
                None => None,
            };
            ParseOutcome::Complete(
                ParsedResponse {
                    msg_len: *end + content_length as usize,
                    status: match *code {
                        Some(c) => c,
                        None => 0,
                    },
                    content_length,
                    content_type_lc,
                    retry_after_ms,
                },
            )
        },
    }
}

/// What `bytes` hold of a response.
pub fn parse_response(bytes: &[u8]) -> (r: ParseOutcome)
    ensures
        r@ == outcome(response_head(bytes@, MAX_HEADERS as nat), bytes@.len()),
        r matches ParseOutcome::Complete(p) ==> p.msg_len <= bytes@.len() && p.content_length
            <= p.msg_len,
{
    read_head(&parse_head(bytes, MAX_HEADERS), bytes.len())
}

/// The bytes read off one connection and not yet consumed.
#[derive(Debug)]
pub struct ReadBuffer {
    data: Vec<u8>,
}

impl View for ReadBuffer {
    type V = Seq<u8>;

    closed spec fn view(&self) -> Seq<u8> {
        self.data@
    }
}

/// What to do next to get one complete response into a buffer.
#[derive(Debug)]
pub enum ReadStep {
    /// The buffer begins with this response.
    Done(ParsedResponse),
    /// What came is no response, or one too large for the buffer.
    Failed,
    /// The response did not arrive in time.
    TimedOut,
    /// Read up to `room` more bytes, within `within_us`.
    Read { room: usize, within_us: u64 },
}

/// `ReadStep` as plain values.
pub enum ReadStepView {
    Done(ResponseView),
    Failed,
    TimedOut,
    Read { room: nat, within_us: nat },
}

impl View for ReadStep {
    type V = ReadStepView;

    open spec fn view(&self) -> ReadStepView {
        match *self {
            ReadStep::Done(r) => ReadStepView::Done(r@),
            ReadStep::Failed => ReadStepView::Failed,
            ReadStep::TimedOut => ReadStepView::TimedOut,
            ReadStep::Read { room, within_us } => ReadStepView::Read {
                room: room as nat,
                within_us: within_us as nat,
            },
        }
    }
}

/// What to do next with a buffer that holds `have` bytes and `found` in them, at
/// `now_us`, to have a response by `deadline_us`.
pub open spec fn read_step(found: OutcomeView, have: nat, now_us: nat, deadline_us: nat)
    -> ReadStepView {
    match found {
        OutcomeView::Complete(r) => ReadStepView::Done(r),
        OutcomeView::Bad => ReadStepView::Failed,
        OutcomeView::NeedMore => if now_us >= deadline_us {
            ReadStepView::TimedOut
        } else if have == READ_BUF_BYTES {
            ReadStepView::Failed
        } else {
            ReadStepView::Read {
                room: (READ_BUF_BYTES - have) as nat,
                within_us: (deadline_us - now_us) as nat,
            }
        },
    }
}

impl ReadBuffer {
    /// The bytes are within the buffer's capacity.
    pub open spec fn wf(self) -> bool {
        self@.len() <= READ_BUF_BYTES
    }

    pub fn new() -> (b: Self)
        ensures
            b.wf(),
            b@ == Seq::<u8>::empty(),
    {
        ReadBuffer { data: Vec::new() }
    }

    /// How many bytes the buffer holds.
    pub fn len(&self) -> (n: usize)
        ensures
            n == self@.len(),
    {
        self.data.len()
    }

    /// Append bytes just read.
    pub fn fill(&mut self, bytes: &[u8])
        requires
            old(self).wf(),
            old(self)@.len() + bytes@.len() <= READ_BUF_BYTES,
        ensures
            final(self).wf(),
            final(self)@ == old(self)@ + bytes@,
    {
        self.data.extend_from_slice(bytes);
        assert(self.data@ =~= old(self).data@ + bytes@);
    }

    /// Drop the first `n` bytes; what follows them moves to the front.
    pub fn consume(&mut self, n: usize)
        requires
            old(self).wf(),
            n <= old(self)@.len(),
        ensures
            final(self).wf(),
            final(self)@ == old(self)@.skip(n as int),
    {
        let rest: Vec<u8> = self.data.split_off(n);
        self.data = rest;
        assert(self.data@ =~= old(self).data@.skip(n as int));
    }

    /// The bytes `from..to`.
    pub fn slice(&self, from: usize, to: usize) -> (r: &[u8])
        requires
            from <= to <= self@.len(),
        ensures
            r@ == self@.subrange(from as int, to as int),
    {
        vstd::slice::slice_subrange(self.data.as_slice(), from, to)
    }

    /// What to do next, at `now_us`, to have one complete response in the
    /// buffer by `deadline_us`.
    pub fn next_read(&self, now_us: u64, deadline_us: u64) -> (r: ReadStep)
        requires
            self.wf(),
        ensures
            r@ == read_step(
                outcome(response_head(self@, MAX_HEADERS as nat), self@.len()),
                self@.len(),
                now_us as nat,
                deadline_us as nat,
            ),
            r matches ReadStep::Done(p) ==> p.msg_len <= self@.len() && p.content_length
                <= p.msg_len,
    {
        match parse_response(self.data.as_slice()) {
            ParseOutcome::Complete(p) => ReadStep::Done(p),
            ParseOutcome::Bad => ReadStep::Failed,
            ParseOutcome::NeedMore => {
                if now_us >= deadline_us {
                    ReadStep::TimedOut
                } else if self.data.len() == READ_BUF_BYTES {
                    ReadStep::Failed
                } else {
                    ReadStep::Read {
                        room: READ_BUF_BYTES - self.data.len(),
                        within_us: deadline_us - now_us,
                    }
                }
            },
        }
    }
}

/// Nothing read is lost: consuming one message of a buffer leaves exactly the
/// bytes that came after it, and bytes read later line up behind them.
pub proof fn law_pipelined_bytes_are_kept(message: Seq<u8>, extra: Seq<u8>, later: Seq<u8>)
    ensures
        (message + extra).skip(message.len() as int) == extra,
        (message + extra).skip(message.len() as int) + later == (message + extra + later).skip(
            message.len() as int,
        ),
{
    assert((message + extra).skip(message.len() as int) =~= extra);
    assert((message + extra + later).skip(message.len() as int) =~= extra + later);
}

/// A header counts by its last readable line: what is taken for a header of this name
/// is the trimmed text of a line with the name, in any case, behind which no readable
/// line with the name comes; and nothing is taken only where there is no such line.
pub proof fn law_the_last_readable_line_counts(headers: Seq<HeaderView>, name: Seq<char>)
    ensures
        header_text(headers, name) matches Some(t) ==> exists|i: int| {
            &&& 0 <= i < headers.len()
            &&& text::lowered((#[trigger] headers[i]).0) == name
            &&& vstd::utf8::valid_utf8(headers[i].1)
            &&& t == text::trimmed(vstd::utf8::decode_utf8(headers[i].1))
            &&& forall|j: int|
                i < j < headers.len() ==> !(text::lowered((#[trigger] headers[j]).0) == name
                    && vstd::utf8::valid_utf8(headers[j].1))
        },
        header_text(headers, name) is None ==> forall|i: int|
            0 <= i < headers.len() ==> !(text::lowered((#[trigger] headers[i]).0) == name
                && vstd::utf8::valid_utf8(headers[i].1)),
    decreases headers.len(),
{
    if headers.len() > 0 {
        let n = headers.len() - 1;
        let rest = headers.drop_last();
        law_the_last_readable_line_counts(rest, name);
        let last = headers[n];
        if text::lowered(last.0) == name && vstd::utf8::valid_utf8(last.1) {
            assert(header_text(headers, name) is Some);
        } else {
            if let Some(t) = header_text(rest, name) {
                let i = choose|i: int| {
                    &&& 0 <= i < rest.len()
                    &&& text::lowered((#[trigger] rest[i]).0) == name
                    &&& vstd::utf8::valid_utf8(rest[i].1)
                    &&& t == text::trimmed(vstd::utf8::decode_utf8(rest[i].1))
                    &&& forall|j: int|
                        i < j < rest.len() ==> !(text::lowered((#[trigger] rest[j]).0) == name
                            && vstd::utf8::valid_utf8(rest[j].1))
                };
                assert(headers[i] == rest[i]);
                assert forall|j: int| i < j < headers.len() implies !(text::lowered(
                    (#[trigger] headers[j]).0,
                ) == name && vstd::utf8::valid_utf8(headers[j].1)) by {
                    if j < n {
                        assert(rest[j] == headers[j]);
                    }
                }
            } else {
                assert forall|i: int| 0 <= i < headers.len() implies !(text::lowered(
                    (#[trigger] headers[i]).0,
                ) == name && vstd::utf8::valid_utf8(headers[i].1)) by {
                    if i < n {
                        assert(rest[i] == headers[i]);
                    }
                }
            }
        }
    }
}

/// What a head announces. Content-Length written as `n` is a body of `n` bytes, and
/// without a readable number the body is empty. Retry-After written as `n` asks for
/// `n` seconds, and anything but a number asks for nothing. Content-Type is taken in
/// lower case.
pub proof fn law_a_head_announces_what_it_writes(headers: Seq<HeaderView>, n: u64)
    ensures
        header_text(headers, "content-length"@) == Some(text::decimal(n as nat))
            ==> announced_length(headers) == n,
        header_text(headers, "content-length"@) is None ==> announced_length(headers) == 0,
        header_text(headers, "content-length"@) matches Some(t) ==> (text::parsed_u64(t) is None
            ==> announced_length(headers) == 0),
        header_text(headers, "retry-after"@) == Some(text::decimal(n as nat)) && n * 1000
            <= u64::MAX ==> announced_retry_ms(headers) == Some((n * 1000) as u64),
        header_text(headers, "retry-after"@) == Some(text::decimal(n as nat)) && n * 1000
            > u64::MAX ==> announced_retry_ms(headers) == Some(u64::MAX),
        header_text(headers, "retry-after"@) is None ==> announced_retry_ms(headers) is None,
        header_text(headers, "retry-after"@) matches Some(t) ==> (text::parsed_u64(t) is None
            ==> announced_retry_ms(headers) is None),
        header_text(headers, "content-type"@) is None ==> announced_type(headers) is None,
        header_text(headers, "content-type"@) matches Some(t) ==> announced_type(headers) == Some(
            text::lowered(t),
        ),
{
    text::law_decimal_reads_back(n);
}

/// A response is its head and the body that the head announces: it is complete once
/// so many bytes are there and not before, its length is that of both together, and
/// its status is the head's.
pub proof fn law_a_response_is_its_head_and_its_body(
    end: nat,
    code: Option<u16>,
    headers: Seq<HeaderView>,
    have: nat,
)
    ensures
        ({
            let found = outcome(HeadView::Complete { end, code, headers }, have);
            &&& found is Complete <==> have >= end + announced_length(headers)
            &&& found is NeedMore <==> have < end + announced_length(headers)
            &&& found matches OutcomeView::Complete(r) ==> {
                &&& r.msg_len == end + announced_length(headers)
                &&& r.content_length == announced_length(headers)
                &&& code matches Some(c) ==> r.status == c
                &&& code is None ==> r.status == 0
                &&& r.content_type_lc == announced_type(headers)
                &&& r.retry_after_ms == announced_retry_ms(headers)
            }
        }),
        outcome(HeadView::Partial, have) is NeedMore,
        outcome(HeadView::Bad, have) is Bad,
{
}

/// What is done next with what was read. A complete response is taken, however late;
/// bytes that are no response are a failure; and while more is needed, the wait is
/// over once the deadline has come, a full buffer is a failure, and otherwise as many
/// bytes as fit are read for as long as is left.
pub proof fn law_reading_goes_on_until_the_deadline(
    found: OutcomeView,
    have: nat,
    now_us: nat,
    deadline_us: nat,
)
    requires
        have <= 65_536,
    ensures
        ({
            let step = read_step(found, have, now_us, deadline_us);
            &&& found matches OutcomeView::Complete(r) ==> step == ReadStepView::Done(r)
            &&& found is Bad ==> step is Failed
            &&& found is NeedMore && now_us >= deadline_us ==> step is TimedOut
            &&& found is NeedMore && now_us < deadline_us && have == 65_536 ==> step is Failed
            &&& found is NeedMore && now_us < deadline_us && have < 65_536 ==> {
                step matches ReadStepView::Read { room, within_us } && room + have == 65_536
                    && now_us + within_us == deadline_us
            }
        }),
{
}

} // verus!

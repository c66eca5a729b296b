//! The benchmark's target: its address and the request sent to it.

use vstd::prelude::*;
use vstd::string::*;

use crate::{response, text};

verus! {

/// A target URI taken apart.
#[derive(Debug, Clone)]
pub struct TargetUri {
    pub host: Option<String>,
    pub port: Option<u16>,
    pub scheme: Option<String>,
    pub path_and_query: Option<String>,
}

/// `TargetUri` as plain values.
pub struct UriView {
    pub host: Option<Seq<char>>,
    pub port: Option<u16>,
    pub scheme: Option<Seq<char>>,
    pub path_and_query: Option<Seq<char>>,
}

impl View for TargetUri {
    type V = UriView;

    open spec fn view(&self) -> UriView {
        UriView {
            host: response::text_view(self.host),
            port: self.port,
            scheme: response::text_view(self.scheme),
            path_and_query: response::text_view(self.path_and_query),
        }
    }
}

/// The parts of the URI that `http::Uri` reads out of `s`, or its complaint.
pub uninterp spec fn uri_parts(s: Seq<char>) -> Result<UriView, Seq<char>>;

/// The outcome of reading a URI as plain values.
pub open spec fn uri_result(r: Result<TargetUri, String>) -> Result<UriView, Seq<char>> {
    match r {
        Ok(u) => Ok(u@),
        Err(e) => Err(e@),
    }
}

/// `http::Uri::try_from`, and what the accessors of the `http::Uri` say: host,
/// port, scheme, path with query.
#[verifier::external_body]
pub(crate) fn parse_uri(s: &str) -> (r: Result<TargetUri, String>)
    ensures
        uri_result(r) == uri_parts(s@),
{
    match http::Uri::try_from(s) {
        Ok(u) => Ok(TargetUri {
            host: u.host().map(str::to_string),
            port: u.port_u16(),
            scheme: u.scheme_str().map(str::to_string),
            path_and_query: u.path_and_query().map(|p| p.as_str().to_string()),
        }),
        Err(e) => Err(e.to_string()),
    }
}

/// Whether `c` may stand in a method's name.
pub open spec fn is_method_char(c: char) -> bool {
    ||| 'a' <= c <= 'z'
    ||| 'A' <= c <= 'Z'
    ||| '0' <= c <= '9'
    ||| c == '!' || c == '#' || c == '$' || c == '%' || c == '&' || c == '\'' || c == '*' || c == '+'
    ||| c == '-' || c == '.' || c == '^' || c == '_' || c == '`' || c == '|' || c == '~'
}

/// Whether `s` names a method.
pub open spec fn is_method(s: Seq<char>) -> bool {
    s.len() > 0 && forall|i: int| 0 <= i < s.len() ==> is_method_char(#[trigger] s[i])
}

/// `http::Method::from_bytes`: the method of this name; there is one for every
/// text made of token characters alone, and for no other.
#[verifier::external_body]
pub(crate) fn parse_method(s: &str) -> (r: Option<String>)
    ensures
        r is Some <==> is_method(s@),
        r matches Some(m) ==> m@ == s@,
{
    http::Method::from_bytes(s.as_bytes()).ok().map(|m| m.as_str().to_string())
}

/// The Host header: the port is named unless it is 80.
pub open spec fn host_header(host: Seq<char>, port: u16) -> Seq<char> {
    if port == 80 {
        host
    } else {
        host + ":"@ + text::decimal(port as nat)
    }
}

/// The lines of a request's headers, each a name and a value.
pub open spec fn header_lines(headers: Seq<(Seq<char>, Seq<char>)>) -> Seq<char>
    decreases headers.len(),
{
    if headers.len() == 0 {
        Seq::empty()
    } else {
        header_lines(headers.drop_last()) + headers.last().0 + ": "@ + headers.last().1 + "\r\n"@
    }
}

/// The text of the request that every connection sends, the run's own headers last.
pub open spec fn request_text(
    method: Seq<char>,
    path: Seq<char>,
    host: Seq<char>,
    headers: Seq<(Seq<char>, Seq<char>)>,
) -> Seq<char> {
    method + " "@ + path + " HTTP/1.1\r\nHost: "@ + host
        + "\r\nAccept: */*\r\nConnection: keep-alive\r\nUser-Agent: engine-worker/0.1\r\n"@
        + header_lines(headers) + "\r\n"@
}

/// The Host header for `host` and `port`.
pub fn host_header_for(host: &str, port: u16) -> (s: String)
    ensures
        s@ == host_header(host@, port),
{
    let mut s: String = host.to_owned();
    if port != 80 {
        s.append(":");
        s.append(text::decimal_text(port as u64).as_str());
    }
    s
}

/// The bytes of the request that every connection sends.
pub fn request_bytes(method: &str, path: &str, host: &str, headers: &Vec<(String, String)>) -> (v:
    Vec<u8>)
    ensures
        v@ == vstd::utf8::encode_utf8(
            request_text(method@, path@, host@, text::pairs(headers@)),
        ),
{
    let mut s: String = method.to_owned();
    s.append(" ");
    s.append(path);
    s.append(" HTTP/1.1\r\nHost: ");
    s.append(host);
    s.append("\r\nAccept: */*\r\nConnection: keep-alive\r\nUser-Agent: engine-worker/0.1\r\n");
    let ghost start = s@;
    let ghost all = text::pairs(headers@);
    let mut i: usize = 0;
    while i < headers.len()
        invariant
            i <= headers@.len(),
            all == text::pairs(headers@),
            s@ == start + header_lines(all.take(i as int)),
        decreases headers@.len() - i,
    {
        assert(all.take(i + 1).drop_last() =~= all.take(i as int));
        s.append(headers[i].0.as_str());
        s.append(": ");
        s.append(headers[i].1.as_str());
        s.append("\r\n");
        i = i + 1;
        assert(s@ =~= start + header_lines(all.take(i as int)));
    }
    assert(all.take(all.len() as int) =~= all);
    s.append("\r\n");
    s.as_str().as_bytes_vec()
}

/// The Host header names the host, and the port behind a colon unless it is the one
/// that http has anyway.
pub proof fn law_the_host_header_names_an_unusual_port(host: Seq<char>, port: u16)
    ensures
        host_header(host, 80) == host,
        port != 80 ==> host_header(host, port) == host + ":"@ + text::decimal(port as nat),
{
}

/// A request carries the run's own headers, all of them in their order, one line each,
/// behind its fixed ones, and ends with an empty line.
pub proof fn law_a_request_carries_its_headers_in_order(
    method: Seq<char>,
    path: Seq<char>,
    host: Seq<char>,
    headers: Seq<(Seq<char>, Seq<char>)>,
    more: (Seq<char>, Seq<char>),
)
    ensures
        header_lines(Seq::empty()).len() == 0,
        header_lines(headers.push(more)) == header_lines(headers) + more.0 + ": "@ + more.1
            + "\r\n"@,
        request_text(method, path, host, headers) == method + " "@ + path
            + " HTTP/1.1\r\nHost: "@ + host
            + "\r\nAccept: */*\r\nConnection: keep-alive\r\nUser-Agent: engine-worker/0.1\r\n"@
            + header_lines(headers) + "\r\n"@,
{
    assert(headers.push(more).drop_last() =~= headers);
}

} // verus!

//! One client connection, from its arrival to the relay: what to do after
//! each thing that happens on the wire. The reads, writes and dials are the
//! caller's; the handler says which to make and takes what came of them.
//!
//! A connection is new, then reads headers, then dials, then relays, and is
//! then done; from any of these it may fail.

use crate::acl::{permitted, AccessControl};
use crate::addr::IpAddress;
use crate::auth::{verdict, Authenticator};
use crate::config::{Config, ConfigView};
use crate::error::{joined, ErrorView, ProxyError};
use crate::filter::Filter;
use crate::headers::{lookup, HeaderList};
use crate::origin::{
    host_port_of, is_absolute, origin_of, parse_host_port, resolve_origin, Origin, OriginView,
};
use crate::pump::PumpStep;
use crate::text::{
    chars_of, contains, digits_of, has_prefix, has_substring, push_number, str_eq,
};
use crate::utils::{parse_http_request, request_of, utf8_lossy, HttpRequest, RequestView};
use vstd::prelude::*;
use vstd::string::{StrSliceExecFns, StringExecFns, StringSliceAdditionalSpecFns};
use vstd::utf8::encode_utf8;

verus! {

/// Seconds that a dial of the origin may take.
pub const DIAL_TIMEOUT_SECS: u64 = 30;

/// Whether the end of the headers, a carriage return and a line feed twice,
/// stands at index `i`.
pub open spec fn terminator_at(buffer: Seq<u8>, i: int) -> bool {
    0 <= i && i + 4 <= buffer.len() && buffer[i] == 13 && buffer[i + 1] == 10 && buffer[i + 2]
        == 13 && buffer[i + 3] == 10
}

/// The index at which the first end of headers begins, or the length of the
/// buffer where it holds none.
pub open spec fn header_end(buffer: Seq<u8>) -> int
    decreases buffer.len(),
{
    if buffer.len() < 4 {
        buffer.len() as int
    } else if terminator_at(buffer, 0) {
        0
    } else {
        1 + header_end(buffer.skip(1))
    }
}

proof fn lemma_terminator_shift(buffer: Seq<u8>, j: int)
    requires
        buffer.len() > 0,
        j >= 0,
    ensures
        terminator_at(buffer.skip(1), j) == terminator_at(buffer, j + 1),
{
    if j + 4 <= buffer.skip(1).len() {
        assert(buffer.skip(1)[j] == buffer[j + 1]);
        assert(buffer.skip(1)[j + 1] == buffer[j + 2]);
        assert(buffer.skip(1)[j + 2] == buffer[j + 3]);
        assert(buffer.skip(1)[j + 3] == buffer[j + 4]);
    }
}

/// `header_end` is the one index before which no end of headers begins and
/// at which one does, or the length of the buffer where none begins at all.
pub proof fn lemma_header_end_is(buffer: Seq<u8>, i: int)
    requires
        0 <= i <= buffer.len(),
        forall|j: int| 0 <= j < i ==> !#[trigger] terminator_at(buffer, j),
        i == buffer.len() || terminator_at(buffer, i),
    ensures
        header_end(buffer) == i,
    decreases buffer.len(),
{
    if buffer.len() >= 4 && i > 0 {
        assert(!terminator_at(buffer, 0));
        assert forall|j: int| 0 <= j < i - 1 implies !#[trigger] terminator_at(
            buffer.skip(1),
            j,
        ) by {
            lemma_terminator_shift(buffer, j);
            assert(!terminator_at(buffer, j + 1));
        }
        if i < buffer.len() {
            lemma_terminator_shift(buffer, i - 1);
        }
        lemma_header_end_is(buffer.skip(1), i - 1);
    }
}

/// Where a buffer holds an end of headers, `header_end` is the first one: it
/// is an end of headers and none begins before it.
pub proof fn lemma_first_terminator(buffer: Seq<u8>, i: int)
    requires
        terminator_at(buffer, i),
    ensures
        0 <= header_end(buffer) <= i,
        terminator_at(buffer, header_end(buffer)),
        forall|j: int| 0 <= j < header_end(buffer) ==> !#[trigger] terminator_at(buffer, j),
    decreases buffer.len(),
{
    if !terminator_at(buffer, 0) {
        lemma_terminator_shift(buffer, i - 1);
        lemma_first_terminator(buffer.skip(1), i - 1);
        lemma_terminator_shift(buffer, header_end(buffer.skip(1)));
        assert forall|j: int| 0 <= j < header_end(buffer) implies !#[trigger] terminator_at(
            buffer,
            j,
        ) by {
            if j > 0 {
                lemma_terminator_shift(buffer, j - 1);
            }
        }
    }
}

/// The index at which the first end of headers begins.
pub fn find_end_of_headers(buffer: &[u8]) -> (r: Option<usize>)
    ensures
        match r {
            Some(i) => i == header_end(buffer@) && terminator_at(buffer@, i as int),
            None => header_end(buffer@) == buffer@.len(),
        },
        forall|j: int| 0 <= j < header_end(buffer@) ==> !#[trigger] terminator_at(buffer@, j),
{
    let mut i: usize = 0;
    while i < buffer.len()
        invariant
            i <= buffer.len(),
            forall|j: int| 0 <= j < i ==> !#[trigger] terminator_at(buffer@, j),
        decreases buffer.len() - i,
    {
        if buffer.len() - i >= 4 && buffer[i] == 13 && buffer[i + 1] == 10 && buffer[i + 2] == 13
            && buffer[i + 3] == 10 {
            proof {
                lemma_header_end_is(buffer@, i as int);
            }
            return Some(i);
        }
        i += 1;
    }
    proof {
        lemma_header_end_is(buffer@, i as int);
    }
    None
}

/// What a read has led to.
#[derive(Debug)]
pub enum ReadOutcome {
    /// The client closed before it sent anything.
    Closed,
    /// The headers are not complete yet.
    NeedMore,
    /// The headers are complete: `head` holds them, with their end, and
    /// `rest` what was read beyond them.
    Complete { head: Vec<u8>, rest: Vec<u8> },
    /// The client closed in the middle of the headers, or they are too large.
    Failed { error: ProxyError },
}

/// `ReadOutcome` with its bytes as sequences.
pub enum OutcomeView {
    Closed,
    NeedMore,
    Complete { head: Seq<u8>, rest: Seq<u8> },
    Failed { error: ErrorView },
}

impl View for ReadOutcome {
    type V = OutcomeView;

    open spec fn view(&self) -> OutcomeView {
        match self {
            ReadOutcome::Closed => OutcomeView::Closed,
            ReadOutcome::NeedMore => OutcomeView::NeedMore,
            ReadOutcome::Complete { head, rest } => OutcomeView::Complete {
                head: head@,
                rest: rest@,
            },
            ReadOutcome::Failed { error } => OutcomeView::Failed { error: error@ },
        }
    }
}

/// What a read of `count` bytes has led to, `buffer` being all that was read
/// so far and `cap` the most bytes that headers may take. A read of no bytes
/// is the client closing. Else the headers are complete if their end is in
/// the buffer; if it is not, the buffer may not be larger than the cap.
pub open spec fn outcome_of(buffer: Seq<u8>, count: nat, cap: nat) -> OutcomeView {
    if count == 0 {
        if buffer.len() == 0 {
            OutcomeView::Closed
        } else {
            OutcomeView::Failed { error: ErrorView::InvalidRequest("Incomplete request"@) }
        }
    } else {
        let end = header_end(buffer);
        if 0 <= end < buffer.len() {
            OutcomeView::Complete { head: buffer.take(end + 4), rest: buffer.skip(end + 4) }
        } else if buffer.len() > cap {
            OutcomeView::Failed { error: ErrorView::InvalidRequest("Request headers too large"@) }
        } else {
            OutcomeView::NeedMore
        }
    }
}

/// Headers that grow over the cap without coming to their end fail as too large.
pub proof fn lemma_header_cap(buffer: Seq<u8>, count: nat, cap: nat)
    requires
        count > 0,
        buffer.len() > cap,
        forall|j: int| !#[trigger] terminator_at(buffer, j),
    ensures
        outcome_of(buffer, count, cap) == (OutcomeView::Failed {
            error: ErrorView::InvalidRequest("Request headers too large"@),
        }),
{
    lemma_header_end_is(buffer, buffer.len() as int);
}

/// Where the headers are complete, they end at the first end of headers and
/// the rest is exactly what follows it.
pub proof fn lemma_complete_split(buffer: Seq<u8>, count: nat, cap: nat, i: int)
    requires
        count > 0,
        terminator_at(buffer, i),
    ensures
        outcome_of(buffer, count, cap) == (OutcomeView::Complete {
            head: buffer.take(header_end(buffer) + 4),
            rest: buffer.skip(header_end(buffer) + 4),
        }),
        buffer.take(header_end(buffer) + 4) + buffer.skip(header_end(buffer) + 4) == buffer,
        header_end(buffer) <= i,
{
    lemma_first_terminator(buffer, i);
    assert(buffer.take(header_end(buffer) + 4) + buffer.skip(header_end(buffer) + 4) =~= buffer);
}

fn copy_bytes(bytes: &[u8], from: usize, to: usize) -> (r: Vec<u8>)
    requires
        from <= to <= bytes.len(),
    ensures
        r@ == bytes@.subrange(from as int, to as int),
{
    let mut r: Vec<u8> = Vec::new();
    let mut i: usize = from;
    while i < to
        invariant
            from <= i <= to <= bytes.len(),
            r@ == bytes@.subrange(from as int, i as int),
        decreases to - i,
    {
        r.push(bytes[i]);
        i += 1;
    }
    r
}

fn append_bytes(out: &mut Vec<u8>, bytes: &[u8])
    ensures
        final(out)@ == old(out)@ + bytes@,
{
    let mut i: usize = 0;
    while i < bytes.len()
        invariant
            i <= bytes.len(),
            out@ == old(out)@ + bytes@.take(i as int),
        decreases bytes.len() - i,
    {
        out.push(bytes[i]);
        assert(out@ =~= old(out)@ + bytes@.take(i + 1));
        i += 1;
    }
    assert(bytes@.take(bytes.len() as int) =~= bytes@);
}

/// Says what a read of `count` bytes has led to.
pub fn after_read(buffer: &[u8], count: usize, cap: usize) -> (outcome: ReadOutcome)
    ensures
        outcome@ == outcome_of(buffer@, count as nat, cap as nat),
{
    if count == 0 {
        if buffer.len() == 0 {
            return ReadOutcome::Closed;
        }
        return ReadOutcome::Failed {
            error: ProxyError::InvalidRequest(String::from_str("Incomplete request")),
        };
    }
    match find_end_of_headers(buffer) {
        Some(end) => {
            let len = buffer.len();
            assert(end + 4 <= len);
            let head = copy_bytes(buffer, 0, end + 4);
            let rest = copy_bytes(buffer, end + 4, buffer.len());
            proof {
                assert(buffer@.subrange(0, end + 4) =~= buffer@.take(end + 4));
                assert(buffer@.subrange(end + 4, buffer.len() as int) =~= buffer@.skip(end + 4));
            }
            ReadOutcome::Complete { head, rest }
        },
        None => {
            if buffer.len() > cap {
                ReadOutcome::Failed {
                    error: ProxyError::InvalidRequest(
                        String::from_str("Request headers too large"),
                    ),
                }
            } else {
                ReadOutcome::NeedMore
            }
        },
    }
}

/// The body of an error page.
pub open spec fn error_body(status: u16, reason: Seq<char>) -> Seq<char> {
    "<html><body><h1>"@ + digits_of(status as nat) + " "@ + reason + "</h1></body></html>"@
}

/// An error page: the status line, the headers that describe the body, which
/// is HTML, and the body.
pub open spec fn error_page(status: u16, reason: Seq<char>) -> Seq<char> {
    "HTTP/1.1 "@ + digits_of(status as nat) + " "@ + reason
        + "\r\nContent-Type: text/html\r\nContent-Length: "@ + digits_of(
        encode_utf8(error_body(status, reason)).len(),
    ) + "\r\nConnection: close\r\n\r\n"@ + error_body(status, reason)
}

/// The page that asks for credentials for a realm.
pub open spec fn auth_page(realm: Seq<char>) -> Seq<char> {
    "HTTP/1.1 407 Proxy Authentication Required\r\nProxy-Authenticate: Basic realm=\""@ + realm
        + "\"\r\nContent-Type: text/html\r\nContent-Length: "@ + digits_of(
        encode_utf8(error_body(407, "Proxy Authentication Required"@)).len(),
    ) + "\r\nConnection: close\r\n\r\n"@ + error_body(407, "Proxy Authentication Required"@)
}

/// The response that carries the statistics page.
pub open spec fn stats_page(html: Seq<char>) -> Seq<char> {
    "HTTP/1.1 200 OK\r\nContent-Type: text/html; charset=utf-8\r\nContent-Length: "@ + digits_of(
        encode_utf8(html).len(),
    ) + "\r\nConnection: close\r\nCache-Control: no-cache\r\n\r\n"@ + html
}

fn body_of_error(status_code: u16, reason: &str) -> (body: String)
    ensures
        body@ == error_body(status_code, reason@),
{
    let mut body = String::from_str("<html><body><h1>");
    push_number(&mut body, status_code as u64);
    body.append(" ");
    body.append(reason);
    body.append("</h1></body></html>");
    assert(body@ =~= error_body(status_code, reason@));
    body
}

/// Builds an error page.
pub fn error_response(status_code: u16, reason: &str) -> (response: String)
    ensures
        response@ == error_page(status_code, reason@),
{
    let body = body_of_error(status_code, reason);
    let mut response = String::from_str("HTTP/1.1 ");
    push_number(&mut response, status_code as u64);
    response.append(" ");
    response.append(reason);
    response.append("\r\nContent-Type: text/html\r\nContent-Length: ");
    push_number(&mut response, body.as_str().as_bytes().len() as u64);
    response.append("\r\nConnection: close\r\n\r\n");
    response.append(body.as_str());
    assert(response@ =~= error_page(status_code, reason@));
    response
}

/// Builds the page that asks for credentials.
pub fn proxy_auth_required(realm: &str) -> (response: String)
    ensures
        response@ == auth_page(realm@),
{
    let body = body_of_error(407, "Proxy Authentication Required");
    let mut response = String::from_str(
        "HTTP/1.1 407 Proxy Authentication Required\r\nProxy-Authenticate: Basic realm=\"",
    );
    response.append(realm);
    response.append("\"\r\nContent-Type: text/html\r\nContent-Length: ");
    push_number(&mut response, body.as_str().as_bytes().len() as u64);
    response.append("\r\nConnection: close\r\n\r\n");
    response.append(body.as_str());
    assert(response@ =~= auth_page(realm@));
    response
}

/// Builds the response that carries the statistics page.
pub fn stats_response(html: &str) -> (response: String)
    ensures
        response@ == stats_page(html@),
{
    let mut response = String::from_str(
        "HTTP/1.1 200 OK\r\nContent-Type: text/html; charset=utf-8\r\nContent-Length: ",
    );
    push_number(&mut response, html.as_bytes().len() as u64);
    response.append("\r\nConnection: close\r\nCache-Control: no-cache\r\n\r\n");
    response.append(html);
    assert(response@ =~= stats_page(html@));
    response
}

/// The header lines of a request: each name, a colon and a space, the value,
/// and the end of the line.
pub open spec fn header_lines(h: HeaderList) -> Seq<char>
    decreases h.len(),
{
    if h.len() == 0 {
        Seq::empty()
    } else {
        header_lines(h.drop_last()) + h.last().0 + ": "@ + h.last().1 + "\r\n"@
    }
}

/// A request as it is sent on: the request line, with the request's own
/// target where `target_uri` is in absolute form and with `target_uri`
/// where it is not; the headers; and an empty line.
pub open spec fn request_text(request: RequestView, target_uri: Seq<char>) -> Seq<char> {
    request.method + " "@ + (if is_absolute(target_uri) {
        request.uri
    } else {
        target_uri
    }) + " HTTP/"@ + request.version + "\r\n"@ + header_lines(request.headers) + "\r\n"@
}

/// The bytes of a request to send on.
pub fn reconstruct_http_request(request: &HttpRequest, target_uri: &str) -> (data: Vec<u8>)
    ensures
        data@ == encode_utf8(request_text(request@, target_uri@)),
{
    let target = chars_of(target_uri);
    let http = chars_of("http://");
    let https = chars_of("https://");
    let absolute = has_prefix(target.as_slice(), http.as_slice()) || has_prefix(
        target.as_slice(),
        https.as_slice(),
    );
    let mut text = String::new();
    text.append(request.method.as_str());
    text.append(" ");
    if absolute {
        text.append(request.uri.as_str());
    } else {
        text.append(target_uri);
    }
    text.append(" HTTP/");
    text.append(request.version.as_str());
    text.append("\r\n");
    let ghost start = text@;
    let ghost h = request.headers@;
    let mut i: usize = 0;
    proof {
        assert(h.take(0) =~= Seq::<(Seq<char>, Seq<char>)>::empty());
        assert(start + header_lines(h.take(0)) =~= start);
    }
    while i < request.headers.len()
        invariant
            i <= request.headers@.len(),
            h == request.headers@,
            text@ == start + header_lines(h.take(i as int)),
        decreases request.headers@.len() - i,
    {
        proof {
            assert(h.take(i + 1).drop_last() =~= h.take(i as int));
            assert(h.take(i + 1).last() == h[i as int]);
        }
        let ghost before = text@;
        text.append(request.headers.name_at(i).as_str());
        text.append(": ");
        text.append(request.headers.value_at(i).as_str());
        text.append("\r\n");
        proof {
            assert(text@ =~= start + header_lines(h.take(i + 1)));
        }
        i += 1;
    }
    proof {
        assert(h.take(request.headers@.len() as int) =~= h);
    }
    text.append("\r\n");
    assert(text@ =~= request_text(request@, target_uri@));
    text.as_str().as_bytes_vec()
}

/// What to do with a request.
#[derive(Debug)]
pub enum Decision {
    /// Answer with an error page and fail.
    Reject { status: u16, reason: String, error: ProxyError },
    /// Ask for credentials and fail.
    RequireAuth { realm: String },
    /// Answer with the statistics page.
    ShowStats,
    /// Open a tunnel to the host and port.
    Tunnel { host: String, port: u16 },
    /// Forward the request to its origin.
    Forward { origin: Origin },
}

/// `Decision` with its strings as sequences of characters.
pub enum DecisionView {
    Reject { status: u16, reason: Seq<char>, error: ErrorView },
    RequireAuth { realm: Seq<char> },
    ShowStats,
    Tunnel { host: Seq<char>, port: u16 },
    Forward { origin: OriginView },
}

impl View for Decision {
    type V = DecisionView;

    open spec fn view(&self) -> DecisionView {
        match self {
            Decision::Reject { status, reason, error } => DecisionView::Reject {
                status: *status,
                reason: reason@,
                error: error@,
            },
            Decision::RequireAuth { realm } => DecisionView::RequireAuth { realm: realm@ },
            Decision::ShowStats => DecisionView::ShowStats,
            Decision::Tunnel { host, port } => DecisionView::Tunnel { host: host@, port: *port },
            Decision::Forward { origin } => DecisionView::Forward { origin: origin@ },
        }
    }
}

/// Whether a request asks for the statistics page: a statistics host is
/// configured, and the request has a `Host` header in which it stands.
pub open spec fn asks_for_stats(request: RequestView, stat_host: Option<Seq<char>>) -> bool {
    match stat_host {
        None => false,
        Some(name) => match lookup(request.headers, "host"@) {
            Some(host) => contains(host, name),
            None => false,
        },
    }
}

/// Whether a method is one that is forwarded.
pub open spec fn is_forward_method(method: Seq<char>) -> bool {
    method == "GET"@ || method == "POST"@ || method == "PUT"@ || method == "DELETE"@ || method
        == "HEAD"@ || method == "OPTIONS"@ || method == "PATCH"@
}

/// What to do with a `CONNECT` request: its target must be a host and a port,
/// and the port one of those that may be connected to.
pub open spec fn tunnel_decision(request: RequestView, ports: Seq<u16>) -> DecisionView {
    match host_port_of(request.uri) {
        Err(error) => DecisionView::Reject { status: 400, reason: "Bad Request"@, error },
        Ok((host, port)) => if ports.contains(port) {
            DecisionView::Tunnel { host, port }
        } else {
            DecisionView::Reject {
                status: 403,
                reason: "Port not allowed"@,
                error: ErrorView::AccessDenied(
                    "CONNECT to port "@ + digits_of(port as nat) + " is not allowed"@,
                ),
            }
        },
    }
}

/// What to do with a request by its method.
pub open spec fn method_decision(request: RequestView, ports: Seq<u16>) -> DecisionView {
    if request.method == "CONNECT"@ {
        tunnel_decision(request, ports)
    } else if is_forward_method(request.method) {
        match origin_of(request) {
            Ok(origin) => DecisionView::Forward { origin },
            Err(error) => DecisionView::Reject { status: 400, reason: "Bad Request"@, error },
        }
    } else {
        DecisionView::Reject {
            status: 405,
            reason: "Method Not Allowed"@,
            error: ErrorView::InvalidRequest("Unsupported method: "@ + request.method),
        }
    }
}

/// What to do with a request. Authentication comes first, then the
/// statistics page, then the filter, then the method.
pub open spec fn decision_of(
    request: RequestView,
    config: ConfigView,
    auth: Authenticator,
    filter: Filter,
) -> DecisionView {
    if verdict(auth.credentials(), request.headers) != Ok::<bool, ErrorView>(true) {
        DecisionView::RequireAuth {
            realm: match auth.credentials() {
                Some(c) => c.realm,
                None => "Tinyproxy"@,
            },
        }
    } else if asks_for_stats(request, config.stat_host) {
        DecisionView::ShowStats
    } else if config.filter_urls && filter.blocks(request.uri) {
        DecisionView::Reject {
            status: 403,
            reason: "Forbidden by filter"@,
            error: ErrorView::FilterBlocked(request.uri),
        }
    } else {
        method_decision(request, config.connect_ports)
    }
}

/// Without credentials and without a statistics host, the filter decides
/// first: a request that it blocks is refused as blocked, and any other goes
/// by its method.
pub proof fn lemma_filter_decides(
    request: RequestView,
    config: ConfigView,
    auth: Authenticator,
    filter: Filter,
)
    requires
        auth.credentials() is None,
        config.stat_host is None,
        config.filter_urls,
    ensures
        filter.blocks(request.uri) ==> decision_of(request, config, auth, filter) == (
        DecisionView::Reject {
            status: 403,
            reason: "Forbidden by filter"@,
            error: ErrorView::FilterBlocked(request.uri),
        }),
        !filter.blocks(request.uri) ==> decision_of(request, config, auth, filter)
            == method_decision(request, config.connect_ports),
{
}

fn is_listed(ports: &Vec<u16>, port: u16) -> (r: bool)
    ensures
        r == ports@.contains(port),
{
    let mut i: usize = 0;
    while i < ports.len()
        invariant
            i <= ports.len(),
            forall|j: int| 0 <= j < i ==> ports@[j] != port,
        decreases ports.len() - i,
    {
        if ports[i] == port {
            return true;
        }
        i += 1;
    }
    false
}

fn decide_tunnel(request: &HttpRequest, ports: &Vec<u16>) -> (d: Decision)
    ensures
        d@ == tunnel_decision(request@, ports@),
{
    match parse_host_port(request.uri.as_str()) {
        Err(error) => Decision::Reject {
            status: 400,
            reason: String::from_str("Bad Request"),
            error,
        },
        Ok((host, port)) => {
            if is_listed(ports, port) {
                Decision::Tunnel { host, port }
            } else {
                let mut message = String::from_str("CONNECT to port ");
                push_number(&mut message, port as u64);
                message.append(" is not allowed");
                Decision::Reject {
                    status: 403,
                    reason: String::from_str("Port not allowed"),
                    error: ProxyError::AccessDenied(message),
                }
            }
        },
    }
}

fn decide_by_method(request: &HttpRequest, ports: &Vec<u16>) -> (d: Decision)
    ensures
        d@ == method_decision(request@, ports@),
{
    let method = request.method.as_str();
    if str_eq(method, "CONNECT") {
        decide_tunnel(request, ports)
    } else if str_eq(method, "GET") || str_eq(method, "POST") || str_eq(method, "PUT") || str_eq(
        method,
        "DELETE",
    ) || str_eq(method, "HEAD") || str_eq(method, "OPTIONS") || str_eq(method, "PATCH") {
        match resolve_origin(request) {
            Ok(origin) => Decision::Forward { origin },
            Err(error) => Decision::Reject {
                status: 400,
                reason: String::from_str("Bad Request"),
                error,
            },
        }
    } else {
        Decision::Reject {
            status: 405,
            reason: String::from_str("Method Not Allowed"),
            error: ProxyError::InvalidRequest(joined("Unsupported method: ", method)),
        }
    }
}

/// Decides what to do with a request.
pub fn decide(request: &HttpRequest, config: &Config, auth: &Authenticator, filter: &Filter) -> (d:
    Decision)
    ensures
        d@ == decision_of(request@, config@, *auth, *filter),
{
    let passes = match auth.authenticate(request) {
        Ok(b) => b,
        Err(_) => false,
    };
    if !passes {
        return Decision::RequireAuth { realm: auth.get_realm() };
    }
    match &config.stat_host {
        Some(name) => {
            match request.headers.get("host") {
                Some(host) => {
                    let hay = chars_of(host.as_str());
                    let needle = chars_of(name.as_str());
                    if has_substring(hay.as_slice(), needle.as_slice()) {
                        return Decision::ShowStats;
                    }
                },
                None => {},
            }
        },
        None => {},
    }
    if config.filter_urls {
        let allowed = match filter.is_allowed(request.uri.as_str()) {
            Ok(b) => b,
            Err(_) => true,
        };
        if !allowed {
            return Decision::Reject {
                status: 403,
                reason: String::from_str("Forbidden by filter"),
                error: ProxyError::FilterBlocked(request.uri.clone()),
            };
        }
    }
    decide_by_method(request, &config.connect_ports)
}

/// Where a connection stands.
#[derive(Debug, Clone, Copy, PartialEq, Eq, Structural)]
pub enum Phase {
    New,
    ReadingHeaders,
    Dialing,
    Relaying,
    Done,
    Failed,
}

/// What a connection relays: a tunnel, or a request that it has forwarded.
#[derive(Debug, Clone, Copy, PartialEq, Eq, Structural)]
pub enum Route {
    Tunnel,
    Forward,
}

/// What came of a dial.
#[derive(Debug)]
pub enum DialResult {
    Connected,
    TimedOut,
    Failed { message: String },
}

/// What the caller is to do next.
#[derive(Debug)]
pub enum Action {
    /// Read from the client, for at most this many seconds, and hand in what
    /// was read.
    Read { timeout_secs: u64 },
    /// Send the response to the client and end the connection with the error.
    Respond { response: String, error: ProxyError },
    /// End the connection with the error, without a response.
    Abort { error: ProxyError },
    /// End the connection: the client has closed it before any request.
    Close,
    /// Send the statistics page and end the connection.
    ShowStats,
    /// Dial the target, for at most this many seconds, and hand in the result.
    Dial { target: String, timeout_secs: u64 },
    /// Send `to_client` to the client and `to_origin` to the origin, then
    /// relay between them and hand in how that ended.
    Relay { to_client: Vec<u8>, to_origin: Vec<u8> },
    /// End the connection: it has relayed this many bytes.
    Finish { bytes: u64 },
}

/// `Action` with its strings and bytes as sequences.
pub enum ActionView {
    Read { timeout_secs: u64 },
    Respond { response: Seq<char>, error: ErrorView },
    Abort { error: ErrorView },
    Close,
    ShowStats,
    Dial { target: Seq<char>, timeout_secs: u64 },
    Relay { to_client: Seq<u8>, to_origin: Seq<u8> },
    Finish { bytes: u64 },
}

impl View for Action {
    type V = ActionView;

    open spec fn view(&self) -> ActionView {
        match self {
            Action::Read { timeout_secs } => ActionView::Read { timeout_secs: *timeout_secs },
            Action::Respond { response, error } => ActionView::Respond {
                response: response@,
                error: error@,
            },
            Action::Abort { error } => ActionView::Abort { error: error@ },
            Action::Close => ActionView::Close,
            Action::ShowStats => ActionView::ShowStats,
            Action::Dial { target, timeout_secs } => ActionView::Dial {
                target: target@,
                timeout_secs: *timeout_secs,
            },
            Action::Relay { to_client, to_origin } => ActionView::Relay {
                to_client: to_client@,
                to_origin: to_origin@,
            },
            Action::Finish { bytes } => ActionView::Finish { bytes: *bytes },
        }
    }
}

/// A host and a port as one dials them.
pub open spec fn dial_target(host: Seq<char>, port: u16) -> Seq<char> {
    host + ":"@ + digits_of(port as nat)
}

/// What is sent to a client once its tunnel stands.
pub open spec fn tunnel_established() -> Seq<char> {
    "HTTP/1.1 200 Connection established\r\n\r\n"@
}

/// The action that carries out a decision.
pub open spec fn action_for(d: DecisionView) -> ActionView {
    match d {
        DecisionView::Reject { status, reason, error } => ActionView::Respond {
            response: error_page(status, reason),
            error,
        },
        DecisionView::RequireAuth { realm } => ActionView::Respond {
            response: auth_page(realm),
            error: ErrorView::AuthenticationFailed,
        },
        DecisionView::ShowStats => ActionView::ShowStats,
        DecisionView::Tunnel { host, port } => ActionView::Dial {
            target: dial_target(host, port),
            timeout_secs: DIAL_TIMEOUT_SECS,
        },
        DecisionView::Forward { origin } => ActionView::Dial {
            target: dial_target(origin.host, origin.port),
            timeout_secs: DIAL_TIMEOUT_SECS,
        },
    }
}

/// The phase that a decision leads to.
pub open spec fn phase_for(d: DecisionView) -> Phase {
    match d {
        DecisionView::Reject { .. } => Phase::Failed,
        DecisionView::RequireAuth { .. } => Phase::Failed,
        DecisionView::ShowStats => Phase::Done,
        DecisionView::Tunnel { .. } => Phase::Dialing,
        DecisionView::Forward { .. } => Phase::Dialing,
    }
}

/// What is to be sent to the origin once it is reached: for a request that is
/// forwarded, the request and then what was read beyond its headers.
pub open spec fn payload_for(d: DecisionView, request: RequestView, rest: Seq<u8>) -> Seq<u8> {
    match d {
        DecisionView::Forward { origin } => encode_utf8(request_text(request, origin.target_uri))
            + rest,
        _ => Seq::empty(),
    }
}

/// The handler of one connection.
pub struct ConnectionHandler<'a> {
    client: IpAddress,
    client_name: String,
    config: &'a Config,
    acl: AccessControl,
    auth: Authenticator,
    filter: Filter,
    buffer: Vec<u8>,
    payload: Vec<u8>,
    route: Route,
    target: String,
    phase: Phase,
    request_seen: bool,
}

impl<'a> ConnectionHandler<'a> {
    /// Where the connection stands.
    pub closed spec fn phase(self) -> Phase {
        self.phase
    }

    /// The address of the client.
    pub closed spec fn client(self) -> IpAddress {
        self.client
    }

    /// The address of the client as text.
    pub closed spec fn client_name(self) -> Seq<char> {
        self.client_name@
    }

    /// The configuration that the connection is served under.
    pub closed spec fn config(self) -> ConfigView {
        self.config@
    }

    /// The access rules.
    pub closed spec fn acl(self) -> AccessControl {
        self.acl
    }

    /// The authenticator.
    pub closed spec fn auth(self) -> Authenticator {
        self.auth
    }

    /// The URL filter.
    pub closed spec fn filter(self) -> Filter {
        self.filter
    }

    /// What was read from the client so far.
    pub closed spec fn buffer(self) -> Seq<u8> {
        self.buffer@
    }

    /// What is to be sent to the origin once it is reached.
    pub closed spec fn payload(self) -> Seq<u8> {
        self.payload@
    }

    /// What the connection relays, once it dials.
    pub closed spec fn route(self) -> Route {
        self.route
    }

    /// The host and port to dial.
    pub closed spec fn target(self) -> Seq<char> {
        self.target@
    }

    /// Whether a request has been read in full.
    pub closed spec fn request_seen(self) -> bool {
        self.request_seen
    }

    /// Whether two handlers serve the same client under the same rules.
    pub open spec fn same_setup(self, other: Self) -> bool {
        &&& self.client() == other.client()
        &&& self.client_name() == other.client_name()
        &&& self.config() == other.config()
        &&& self.acl() == other.acl()
        &&& self.auth() == other.auth()
        &&& self.filter() == other.filter()
    }

    /// A handler for a client that has just connected. `filter_source` is the
    /// text of the filter file, where there is one.
    pub fn new(
        client: IpAddress,
        client_name: &str,
        config: &'a Config,
        filter_source: Option<&str>,
    ) -> (handler: Self)
        ensures
            handler.phase() == Phase::New,
            handler.client() == client,
            handler.client_name() == client_name@,
            handler.config() == config@,
            handler.buffer() == Seq::<u8>::empty(),
            !handler.request_seen(),
            handler.acl().allow() == crate::acl::allow_rules_of(config@.allow, config@.deny),
            handler.acl().deny() == crate::acl::rules_of(config@.deny),
            handler.auth().credentials() == config@.basic_auth,
            handler.filter().built_from(
                config@,
                match filter_source {
                    Some(text) => Some(text@),
                    None => None,
                },
            ),
    {
        ConnectionHandler {
            client,
            client_name: String::from_str(client_name),
            config,
            acl: AccessControl::new(config),
            auth: Authenticator::new(config),
            filter: Filter::new(config, filter_source),
            buffer: Vec::new(),
            payload: Vec::new(),
            route: Route::Tunnel,
            target: String::new(),
            phase: Phase::New,
            request_seen: false,
        }
    }

    /// Where the connection stands.
    pub fn current_phase(&self) -> (phase: Phase)
        ensures
            phase == self.phase(),
    {
        self.phase
    }

    /// Whether a request has been read in full.
    pub fn has_seen_request(&self) -> (r: bool)
        ensures
            r == self.request_seen(),
    {
        self.request_seen
    }

    /// Begins: a client that the access rules admit is read from; any other
    /// is refused.
    pub fn start(&mut self) -> (action: Action)
        requires
            old(self).phase() == Phase::New,
        ensures
            final(self).same_setup(*old(self)),
            final(self).buffer() == old(self).buffer(),
            final(self).request_seen() == old(self).request_seen(),
            permitted(old(self).acl().allow(), old(self).acl().deny(), old(self).client()) ==> {
                &&& final(self).phase() == Phase::ReadingHeaders
                &&& action@ == (ActionView::Read { timeout_secs: old(self).config().timeout })
            },
            !permitted(old(self).acl().allow(), old(self).acl().deny(), old(self).client()) ==> {
                &&& final(self).phase() == Phase::Failed
                &&& action@ == (ActionView::Respond {
                    response: error_page(403, "Forbidden"@),
                    error: ErrorView::AccessDenied(
                        "IP "@ + old(self).client_name() + " is not allowed"@,
                    ),
                })
            },
    {
        if self.acl.is_allowed(&self.client) {
            self.phase = Phase::ReadingHeaders;
            Action::Read { timeout_secs: self.config.timeout }
        } else {
            self.phase = Phase::Failed;
            let mut message = String::from_str("IP ");
            message.append(self.client_name.as_str());
            message.append(" is not allowed");
            Action::Respond {
                response: error_response(403, "Forbidden"),
                error: ProxyError::AccessDenied(message),
            }
        }
    }

    /// What a request leads to, once its headers are complete.
    pub open spec fn dispatched(self, before: Self, action: Action, head: Seq<u8>, rest: Seq<u8>)
        -> bool {
        match request_of(utf8_lossy(head)) {
            Err(reason) => {
                &&& self.phase() == Phase::Failed
                &&& self.request_seen() == before.request_seen()
                &&& action@ == (ActionView::Respond {
                    response: error_page(400, "Bad Request"@),
                    error: ErrorView::InvalidRequest(reason),
                })
            },
            Ok(request) => {
                let d = decision_of(request, before.config(), before.auth(), before.filter());
                &&& self.request_seen()
                &&& self.phase() == phase_for(d)
                &&& action@ == action_for(d)
                &&& self.payload() == payload_for(d, request, rest)
                &&& d is Tunnel ==> self.route() == Route::Tunnel
                &&& d is Forward ==> self.route() == Route::Forward
                &&& (action@ matches ActionView::Dial { target, .. } ==> self.target() == target)
            },
        }
    }

    /// Takes what a read gave: no bytes where the client has closed.
    pub fn on_read(&mut self, data: &[u8]) -> (action: Action)
        requires
            old(self).phase() == Phase::ReadingHeaders,
        ensures
            final(self).same_setup(*old(self)),
            match outcome_of(
                old(self).buffer() + data@,
                data@.len(),
                old(self).config().max_header_size as nat,
            ) {
                OutcomeView::Closed => {
                    &&& final(self).phase() == Phase::Done
                    &&& final(self).request_seen() == old(self).request_seen()
                    &&& action@ == ActionView::Close
                },
                OutcomeView::NeedMore => {
                    &&& final(self).phase() == Phase::ReadingHeaders
                    &&& final(self).buffer() == old(self).buffer() + data@
                    &&& final(self).request_seen() == old(self).request_seen()
                    &&& action@ == (ActionView::Read { timeout_secs: old(self).config().timeout })
                },
                OutcomeView::Failed { error } => {
                    &&& final(self).phase() == Phase::Failed
                    &&& final(self).request_seen() == old(self).request_seen()
                    &&& action@ == (ActionView::Respond {
                        response: error_page(400, "Bad Request"@),
                        error,
                    })
                },
                OutcomeView::Complete { head, rest } => final(self).dispatched(
                    *old(self),
                    action,
                    head,
                    rest,
                ),
            },
    {
        append_bytes(&mut self.buffer, data);
        match after_read(self.buffer.as_slice(), data.len(), self.config.max_header_size) {
            ReadOutcome::Closed => {
                self.phase = Phase::Done;
                Action::Close
            },
            ReadOutcome::NeedMore => Action::Read { timeout_secs: self.config.timeout },
            ReadOutcome::Failed { error } => {
                self.phase = Phase::Failed;
                Action::Respond { response: error_response(400, "Bad Request"), error }
            },
            ReadOutcome::Complete { head, rest } => {
                let request = match parse_http_request(head.as_slice()) {
                    Ok(request) => request,
                    Err(error) => {
                        self.phase = Phase::Failed;
                        return Action::Respond {
                            response: error_response(400, "Bad Request"),
                            error,
                        };
                    },
                };
                self.request_seen = true;
                self.dispatch(request, rest)
            },
        }
    }

    fn dispatch(&mut self, request: HttpRequest, rest: Vec<u8>) -> (action: Action)
        ensures
            final(self).same_setup(*old(self)),
            final(self).request_seen() == old(self).request_seen(),
            final(self).buffer() == old(self).buffer(),
            ({
                let d = decision_of(
                    request@,
                    old(self).config(),
                    old(self).auth(),
                    old(self).filter(),
                );
                &&& final(self).phase() == phase_for(d)
                &&& action@ == action_for(d)
                &&& final(self).payload() == payload_for(d, request@, rest@)
                &&& d is Tunnel ==> final(self).route() == Route::Tunnel
                &&& d is Forward ==> final(self).route() == Route::Forward
                &&& (action@ matches ActionView::Dial { target, .. } ==> final(self).target()
                    == target)
            }),
    {
        self.payload = Vec::new();
        match decide(&request, self.config, &self.auth, &self.filter) {
            Decision::Reject { status, reason, error } => {
                self.phase = Phase::Failed;
                Action::Respond { response: error_response(status, reason.as_str()), error }
            },
            Decision::RequireAuth { realm } => {
                self.phase = Phase::Failed;
                Action::Respond {
                    response: proxy_auth_required(realm.as_str()),
                    error: ProxyError::AuthenticationFailed,
                }
            },
            Decision::ShowStats => {
                self.phase = Phase::Done;
                Action::ShowStats
            },
            Decision::Tunnel { host, port } => {
                self.phase = Phase::Dialing;
                self.route = Route::Tunnel;
                let target = target_of(host.as_str(), port);
                self.target = target.clone();
                Action::Dial { target, timeout_secs: DIAL_TIMEOUT_SECS }
            },
            Decision::Forward { origin } => {
                self.phase = Phase::Dialing;
                self.route = Route::Forward;
                let mut payload = reconstruct_http_request(&request, origin.target_uri.as_str());
                append_bytes(&mut payload, rest.as_slice());
                self.payload = payload;
                let target = target_of(origin.host.as_str(), origin.port);
                self.target = target.clone();
                Action::Dial { target, timeout_secs: DIAL_TIMEOUT_SECS }
            },
        }
    }

    /// Takes note that a read from the client has timed out.
    pub fn on_read_timeout(&mut self) -> (action: Action)
        requires
            old(self).phase() == Phase::ReadingHeaders,
        ensures
            final(self).same_setup(*old(self)),
            final(self).phase() == Phase::Failed,
            final(self).request_seen() == old(self).request_seen(),
            action@ == (ActionView::Respond {
                response: error_page(408, "Request Timeout"@),
                error: ErrorView::Timeout,
            }),
    {
        self.phase = Phase::Failed;
        Action::Respond {
            response: error_response(408, "Request Timeout"),
            error: ProxyError::Timeout,
        }
    }

    /// Takes note that a read from the client has failed.
    pub fn on_read_error(&mut self, message: String) -> (action: Action)
        requires
            old(self).phase() == Phase::ReadingHeaders,
        ensures
            final(self).same_setup(*old(self)),
            final(self).phase() == Phase::Failed,
            final(self).request_seen() == old(self).request_seen(),
            action@ == (ActionView::Abort { error: ErrorView::Io(message@) }),
    {
        self.phase = Phase::Failed;
        Action::Abort { error: ProxyError::Io(message) }
    }

    /// Takes what came of the dial. Once the origin is reached, a tunnel
    /// tells the client so, and a forwarded request is sent on.
    pub fn on_dial(&mut self, result: DialResult) -> (action: Action)
        requires
            old(self).phase() == Phase::Dialing,
        ensures
            final(self).same_setup(*old(self)),
            final(self).request_seen() == old(self).request_seen(),
            final(self).route() == old(self).route(),
            final(self).target() == old(self).target(),
            match result {
                DialResult::Connected => {
                    &&& final(self).phase() == Phase::Relaying
                    &&& action@ == (ActionView::Relay {
                        to_client: if old(self).route() == Route::Tunnel {
                            encode_utf8(tunnel_established())
                        } else {
                            Seq::empty()
                        },
                        to_origin: old(self).payload(),
                    })
                },
                DialResult::TimedOut => {
                    &&& final(self).phase() == Phase::Failed
                    &&& action@ == (ActionView::Respond {
                        response: error_page(408, "Request Timeout"@),
                        error: ErrorView::Timeout,
                    })
                },
                DialResult::Failed { message } => {
                    &&& final(self).phase() == Phase::Failed
                    &&& action@ == (ActionView::Respond {
                        response: error_page(502, "Bad Gateway"@),
                        error: ErrorView::Upstream(
                            "Failed to connect to "@ + old(self).target() + ": "@ + message@,
                        ),
                    })
                },
            },
    {
        match result {
            DialResult::Connected => {
                self.phase = Phase::Relaying;
                let to_client = match self.route {
                    Route::Tunnel => "HTTP/1.1 200 Connection established\r\n\r\n".as_bytes_vec(),
                    Route::Forward => Vec::new(),
                };
                let mut to_origin: Vec<u8> = Vec::new();
                std::mem::swap(&mut to_origin, &mut self.payload);
                Action::Relay { to_client, to_origin }
            },
            DialResult::TimedOut => {
                self.phase = Phase::Failed;
                Action::Respond {
                    response: error_response(408, "Request Timeout"),
                    error: ProxyError::Timeout,
                }
            },
            DialResult::Failed { message } => {
                self.phase = Phase::Failed;
                let mut text = String::from_str("Failed to connect to ");
                text.append(self.target.as_str());
                text.append(": ");
                text.append(message.as_str());
                Action::Respond {
                    response: error_response(502, "Bad Gateway"),
                    error: ProxyError::Upstream(text),
                }
            },
        }
    }

    /// Takes how the relay ended: with its bytes, or with an error, for
    /// which no response is sent any more.
    pub fn on_relay_done(&mut self, end: PumpStep) -> (action: Action)
        requires
            old(self).phase() == Phase::Relaying,
            !(end is Continue),
        ensures
            final(self).same_setup(*old(self)),
            final(self).request_seen() == old(self).request_seen(),
            match end {
                PumpStep::Done { total } => final(self).phase() == Phase::Done && action@ == (
                ActionView::Finish { bytes: total }),
                PumpStep::Failed { error } => final(self).phase() == Phase::Failed && action@ == (
                ActionView::Abort { error: error@ }),
                PumpStep::Continue => true,
            },
    {
        match end {
            PumpStep::Done { total } => {
                self.phase = Phase::Done;
                Action::Finish { bytes: total }
            },
            PumpStep::Failed { error } => {
                self.phase = Phase::Failed;
                Action::Abort { error }
            },
            PumpStep::Continue => Action::Finish { bytes: 0 },
        }
    }
}

/// A host and a port as one dials them.
fn target_of(host: &str, port: u16) -> (target: String)
    ensures
        target@ == dial_target(host@, port),
{
    let mut target = String::from_str(host);
    target.append(":");
    push_number(&mut target, port as u64);
    assert(target@ =~= dial_target(host@, port));
    target
}

} // verus!

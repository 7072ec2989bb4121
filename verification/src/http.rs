//! HTTP executions: what a guest is asked, what it may reach, and what it
//! answers.

use http::{HeaderName, HeaderValue, Method, Uri};
use vstd::prelude::*;

use crate::clock::Span;
use crate::digest::sha256;
use crate::failure::Failure;
use crate::outcome::ControlSignal;
use crate::paddock::PaddockGrant;
use crate::runtime::HttpHalf;
use crate::signature::{PaddockGatewayAuth, SignedRequest};
use crate::text::{
    concat2, concat3, copy_pairs, copy_strings, decimal_string, hex_digest, same,
};
use crate::{digest, text};

verus! {

/// An address and a port that a guest may connect to.
#[derive(Debug, Clone, Copy, PartialEq, Eq, Structural)]
pub enum TcpEndpoint {
    V4 { address: u32, port: u16 },
    V6 { long_address: u128, port: u16, flow: u32, scope: u32 },
}

impl TcpEndpoint {
    /// Whether the address is one of this machine itself: 127.0.0.0/8 or ::1.
    pub open spec fn loopback(&self) -> bool {
        match *self {
            TcpEndpoint::V4 { address, .. } => address / 0x0100_0000 == 127,
            TcpEndpoint::V6 { long_address, .. } => long_address == 1,
        }
    }

    /// Whether the address is one of this machine itself.
    pub fn is_loopback(&self) -> (is: bool)
        ensures
            is == self.loopback(),
    {
        match self {
            TcpEndpoint::V4 { address, .. } => *address / 0x0100_0000 == 127,
            TcpEndpoint::V6 { long_address, .. } => *long_address == 1,
        }
    }
}

/// What a guest wants to do with an address.
#[derive(Debug, Clone, Copy, PartialEq, Eq, Structural)]
pub enum SocketUse {
    TcpBind,
    TcpConnect,
    UdpBind,
    UdpConnect,
    UdpOutgoingDatagram,
}

/// Whether a guest may use an address: only to connect to one of the endpoints
/// that it was given.
pub fn socket_allowed(allowed: &Vec<TcpEndpoint>, endpoint: TcpEndpoint, purpose: SocketUse) -> (may:
    bool)
    ensures
        may == (purpose == SocketUse::TcpConnect && allowed@.contains(endpoint)),
{
    if purpose != SocketUse::TcpConnect {
        return false;
    }
    let count = allowed.len();
    let mut i: usize = 0;
    while i < count
        invariant
            i <= count,
            count == allowed@.len(),
            purpose == SocketUse::TcpConnect,
            forall|k: int| 0 <= k < i ==> #[trigger] allowed@[k] != endpoint,
        decreases count - i,
    {
        if allowed[i] == endpoint {
            return true;
        }
        i += 1;
    }
    false
}

/// What a guest is asked.
#[derive(Debug)]
pub struct HttpRequest {
    pub method: String,
    pub path_and_query: String,
    pub headers: Vec<(String, String)>,
    pub body: Vec<u8>,
    /// The variables that the guest sees. It sees no others.
    pub env: Vec<(String, String)>,
    /// The endpoints that the guest may connect to.
    pub allowed_tcp: Vec<TcpEndpoint>,
    /// The garage that executes the request.
    pub source_garage_id: Option<String>,
    /// The garages that the invocation has been through.
    pub visited_garages: Vec<String>,
    /// The release of the application that the request came in for.
    pub application_id: Option<String>,
    pub release_id: Option<String>,
    /// What the guest may do with the objects of its host.
    pub paddock_grants: Vec<PaddockGrant>,
    pub paddock_auth: Option<PaddockGatewayAuth>,
}

/// What a guest answers.
#[derive(Debug)]
pub struct HttpResponse {
    pub status: u16,
    pub headers: Vec<(String, String)>,
    pub body: Vec<u8>,
}

/// How long the stages of one execution took.
#[derive(Debug, Clone, Copy, PartialEq, Eq, Structural)]
pub struct HttpExecutionTimings {
    pub request_setup: Span,
    pub wasi_setup: Span,
    pub store_setup: Span,
    pub instance_setup: Span,
    pub guest_execution: Span,
}

impl Default for HttpExecutionTimings {
    fn default() -> (timings: Self)
        ensures
            timings.request_setup.nanos == 0,
            timings.wasi_setup.nanos == 0,
            timings.store_setup.nanos == 0,
            timings.instance_setup.nanos == 0,
            timings.guest_execution.nanos == 0,
    {
        HttpExecutionTimings {
            request_setup: Span::zero(),
            wasi_setup: Span::zero(),
            store_setup: Span::zero(),
            instance_setup: Span::zero(),
            guest_execution: Span::zero(),
        }
    }
}

/// Whether a character may stand in a token: letters, digits and some marks.
pub open spec fn is_token_char(c: char) -> bool {
    ||| 'a' <= c <= 'z'
    ||| 'A' <= c <= 'Z'
    ||| '0' <= c <= '9'
    ||| c == '!' || c == '#' || c == '$' || c == '%' || c == '&' || c == '\''
    ||| c == '*' || c == '+' || c == '-' || c == '.' || c == '^' || c == '_'
    ||| c == '`' || c == '|' || c == '~'
}

/// Whether a text is a token: it is not empty, and every character may stand in
/// one.
pub open spec fn is_token(s: Seq<char>) -> bool {
    s.len() > 0 && forall|i: int| 0 <= i < s.len() ==> is_token_char(#[trigger] s[i])
}

/// A capital letter as a small one.
pub open spec fn small(c: char) -> char {
    if 'A' <= c <= 'Z' {
        ((c as u32) + 32) as char
    } else {
        c
    }
}

/// A text with small letters.
pub open spec fn small_text(s: Seq<char>) -> Seq<char> {
    s.map_values(|c: char| small(c))
}

/// Whether a text is the name of a header.
pub open spec fn is_header_name(s: Seq<char>) -> bool {
    is_token(s) && s.len() <= 65_535
}

/// Whether a character may stand in the value of a header: no control character
/// but the tab.
pub open spec fn is_value_char(c: char) -> bool {
    c == '\t' || (c >= ' ' && c != '\x7f')
}

/// Whether a text is the value of a header.
pub open spec fn is_header_value(s: Seq<char>) -> bool {
    forall|i: int| 0 <= i < s.len() ==> is_value_char(#[trigger] s[i])
}

/// Whether a byte of a header is plain text: a visible ASCII character or a tab.
pub open spec fn is_plain_byte(b: u8) -> bool {
    b == 9 || 32 <= b < 127
}

/// Bytes of plain text, as a text.
pub open spec fn plain_text(bytes: Seq<u8>) -> Option<Seq<char>> {
    if forall|i: int| 0 <= i < bytes.len() ==> is_plain_byte(#[trigger] bytes[i]) {
        Some(bytes.map_values(|b: u8| b as char))
    } else {
        None
    }
}

/// `http::Method::from_bytes`: a method is a token, and is written as it is
/// read. The error says that it is none.
#[verifier::external_body]
pub(crate) fn read_method(method: &str) -> (read: Result<String, String>)
    ensures
        match read {
            Ok(same) => is_token(method@) && same@ == method@,
            Err(error) => !is_token(method@) && error@ == "invalid HTTP method"@,
        },
{
    match Method::from_bytes(method.as_bytes()) {
        Ok(read) => Ok(read.to_string()),
        Err(error) => Err(error.to_string()),
    }
}

/// `http::HeaderName::try_from`: the name of a header is a token of at most
/// 65535 characters, and is written with small letters. The error says that it
/// is none.
#[verifier::external_body]
pub(crate) fn read_header_name(name: &str) -> (read: Result<String, String>)
    ensures
        match read {
            Ok(lower) => is_header_name(name@) && lower@ == small_text(name@),
            Err(error) => !is_header_name(name@) && error@ == "invalid HTTP header name"@,
        },
{
    match HeaderName::try_from(name) {
        Ok(read) => Ok(read.to_string()),
        Err(error) => Err(error.to_string()),
    }
}

/// `http::HeaderValue::try_from`: the value of a header holds no control
/// character but the tab. The error says that it does.
#[verifier::external_body]
pub(crate) fn read_header_value(value: &str) -> (read: Result<(), String>)
    ensures
        match read {
            Ok(_) => is_header_value(value@),
            Err(error) => !is_header_value(value@) && error@ == "failed to parse header value"@,
        },
{
    match HeaderValue::try_from(value) {
        Ok(_) => Ok(()),
        Err(error) => Err(error.to_string()),
    }
}

/// `http::HeaderValue::from_bytes`, and `http::HeaderValue::to_str` of it: the same
/// characters, where all of them are plain text.
#[verifier::external_body]
pub(crate) fn header_text(value: &[u8]) -> (read: Option<String>)
    ensures
        text::optional_text(read) == plain_text(value@),
{
    match HeaderValue::from_bytes(value) {
        Ok(value) => value.to_str().ok().map(String::from),
        Err(_) => None,
    }
}

/// What `http` says of a text that it does not read as a URI.
pub uninterp spec fn uri_problem(s: Seq<char>) -> Option<Seq<char>>;

/// Whether `http` reads a text as a URI.
pub open spec fn is_uri(s: Seq<char>) -> bool {
    uri_problem(s) is None
}

/// `http::Uri::try_from`, which depends on the text alone, as does what the error
/// says.
#[verifier::external_body]
pub(crate) fn read_uri(uri: &str) -> (read: Result<(), String>)
    ensures
        match read {
            Ok(_) => uri_problem(uri@) is None,
            Err(error) => uri_problem(uri@) == Some(error@),
        },
{
    match Uri::try_from(uri) {
        Ok(_) => Ok(()),
        Err(error) => Err(error.to_string()),
    }
}

/// Whether every header has a name and a value.
pub open spec fn are_headers(headers: Seq<(Seq<char>, Seq<char>)>) -> bool {
    forall|i: int|
        0 <= i < headers.len() ==> is_header_name((#[trigger] headers[i]).0) && is_header_value(
            headers[i].1,
        )
}

/// The headers with their names in small letters.
pub open spec fn canonical_headers(headers: Seq<(Seq<char>, Seq<char>)>) -> Seq<
    (Seq<char>, Seq<char>),
> {
    headers.map_values(|header: (Seq<char>, Seq<char>)| (small_text(header.0), header.1))
}

/// Why a header is refused, where one is: the first that has no name or no
/// value.
pub open spec fn header_problem(headers: Seq<(Seq<char>, Seq<char>)>) -> Option<Seq<char>>
    decreases headers.len(),
{
    if headers.len() == 0 {
        None
    } else {
        match header_problem(headers.drop_last()) {
            Some(problem) => Some(problem),
            None => if !is_header_name(headers.last().0) {
                Some("invalid HTTP header name"@)
            } else if !is_header_value(headers.last().1) {
                Some("failed to parse header value"@)
            } else {
                None
            },
        }
    }
}

proof fn lemma_header_problem(headers: Seq<(Seq<char>, Seq<char>)>)
    ensures
        header_problem(headers) is None <==> are_headers(headers),
    decreases headers.len(),
{
    if headers.len() > 0 {
        let rest = headers.drop_last();
        lemma_header_problem(rest);
        assert(forall|i: int| 0 <= i < rest.len() ==> #[trigger] rest[i] == headers[i]);
        if are_headers(headers) {
            assert(is_header_name(headers[headers.len() - 1].0));
            assert forall|i: int| 0 <= i < rest.len() implies is_header_name(
                (#[trigger] rest[i]).0,
            ) && is_header_value(rest[i].1) by {
                assert(is_header_name(headers[i].0));
            }
        } else if are_headers(rest) && is_header_name(headers.last().0) && is_header_value(
            headers.last().1,
        ) {
            assert forall|i: int| 0 <= i < headers.len() implies is_header_name(
                (#[trigger] headers[i]).0,
            ) && is_header_value(headers[i].1) by {
                if i < rest.len() {
                    assert(is_header_name(rest[i].0));
                }
            }
        }
    }
}

proof fn lemma_header_problem_kept(headers: Seq<(Seq<char>, Seq<char>)>, n: int)
    requires
        0 <= n <= headers.len(),
        header_problem(headers.take(n)) is Some,
    ensures
        header_problem(headers) == header_problem(headers.take(n)),
    decreases headers.len(),
{
    if n < headers.len() {
        assert(headers.drop_last().take(n) =~= headers.take(n));
        lemma_header_problem_kept(headers.drop_last(), n);
    } else {
        assert(headers.take(n) =~= headers);
    }
}

/// Reads headers. The error says what is wrong with the first that is refused.
pub fn read_headers(headers: &Vec<(String, String)>) -> (read: Result<Vec<(String, String)>, String>)
    ensures
        match header_problem(text::text_pairs(headers@)) {
            Some(problem) => read matches Err(error) && error@ == problem,
            None => read matches Ok(read) && text::text_pairs(read@) == canonical_headers(
                text::text_pairs(headers@),
            ),
        },
{
    let ghost all = text::text_pairs(headers@);
    let count = headers.len();
    let mut read: Vec<(String, String)> = Vec::new();
    let mut i: usize = 0;
    proof {
        assert(all.take(0) =~= Seq::<(Seq<char>, Seq<char>)>::empty());
    }
    while i < count
        invariant
            i <= count,
            count == headers@.len(),
            all == text::text_pairs(headers@),
            header_problem(all.take(i as int)) is None,
            read@.len() == i,
            forall|k: int|
                0 <= k < i ==> (#[trigger] read@[k]).0@ == small_text(all[k].0) && read@[k].1@
                    == all[k].1,
        decreases count - i,
    {
        proof {
            assert(all.take(i + 1).drop_last() =~= all.take(i as int));
            assert(all.take(i + 1).last() == (headers@[i as int].0@, headers@[i as int].1@));
        }
        let name = match read_header_name(headers[i].0.as_str()) {
            Ok(name) => name,
            Err(error) => {
                proof {
                    lemma_header_problem_kept(all, i + 1);
                }
                return Err(error);
            },
        };
        match read_header_value(headers[i].1.as_str()) {
            Ok(()) => {},
            Err(error) => {
                proof {
                    lemma_header_problem_kept(all, i + 1);
                }
                return Err(error);
            },
        }
        read.push((name, headers[i].1.clone()));
        i += 1;
    }
    proof {
        assert(all.take(count as int) =~= all);
        assert(text::text_pairs(read@) =~= canonical_headers(all));
    }
    Ok(read)
}

/// Whether a request can be handed to a guest.
pub open spec fn is_valid_request(request: HttpRequest) -> bool {
    is_token(request.method@) && is_uri(request.path_and_query@) && are_headers(
        text::text_pairs(request.headers@),
    )
}

/// What is wrong with a request that cannot be handed to a guest: its method, its
/// target or one of its headers.
pub open spec fn request_flaw(request: HttpRequest) -> Option<Seq<char>> {
    if !is_token(request.method@) {
        Some("invalid HTTP method"@)
    } else {
        match uri_problem(request.path_and_query@) {
            Some(problem) => Some(problem),
            None => header_problem(text::text_pairs(request.headers@)),
        }
    }
}

/// Checks that a request can be handed to a guest: its method, its target and
/// its headers.
pub fn check_request(request: &HttpRequest) -> (checked: Result<(), Failure>)
    ensures
        checked is Ok <==> is_valid_request(*request),
        match request_flaw(*request) {
            None => checked is Ok,
            Some(flaw) => checked matches Err(failure) && failure.message@
                == "invalid HTTP request"@ && text::optional_text(failure.cause) == Some(flaw),
        },
{
    proof {
        lemma_header_problem(text::text_pairs(request.headers@));
    }
    match read_method(request.method.as_str()) {
        Ok(_) => {},
        Err(error) => {
            return Err(Failure::caused("invalid HTTP request", error));
        },
    }
    match read_uri(request.path_and_query.as_str()) {
        Ok(_) => {},
        Err(error) => {
            return Err(Failure::caused("invalid HTTP request", error));
        },
    }
    match read_headers(&request.headers) {
        Ok(_) => Ok(()),
        Err(error) => Err(Failure::caused("invalid HTTP request", error)),
    }
}

/// What the signature of a request is checked against.
pub fn signed_request(request: &HttpRequest) -> (signed: SignedRequest)
    ensures
        signed.method@ == request.method@,
        signed.path@ == request.path_and_query@,
        text::text_pairs(signed.headers@) == text::text_pairs(request.headers@),
        signed.payload_hash@ == text::hex(digest::sha256_digest(request.body@)),
{
    let digest = sha256(request.body.as_slice());
    SignedRequest {
        method: request.method.clone(),
        path: request.path_and_query.clone(),
        headers: copy_pairs(&request.headers),
        payload_hash: hex_digest(digest.as_slice()),
    }
}

/// Why an artifact cannot answer requests.
pub open spec fn http_problem(half: HttpHalf) -> Option<Seq<char>> {
    match half {
        HttpHalf::Unprepared => Some("HTTP engine was not prepared"@),
        HttpHalf::EngineOnly => Some("HTTP component was not prepared"@),
        _ => None,
    }
}

/// Checks that an artifact can answer requests.
pub fn check_http_half(half: HttpHalf) -> (checked: Result<(), Failure>)
    ensures
        match http_problem(half) {
            Some(problem) => checked matches Err(failure) && failure.says(problem),
            None => checked is Ok,
        },
{
    match half {
        HttpHalf::Unprepared => Err(Failure::new("HTTP engine was not prepared")),
        HttpHalf::EngineOnly => Err(Failure::new("HTTP component was not prepared")),
        _ => Ok(()),
    }
}

/// Why an artifact does not answer a request: it has no engine, the request is
/// invalid, or it has no component.
pub open spec fn admission_flaw(half: HttpHalf, request: HttpRequest) -> Option<
    (Seq<char>, Option<Seq<char>>),
> {
    if half == HttpHalf::Unprepared {
        Some((http_problem(half)->0, None))
    } else {
        match request_flaw(request) {
            Some(flaw) => Some(("invalid HTTP request"@, Some(flaw))),
            None => match http_problem(half) {
                Some(problem) => Some((problem, None)),
                None => None,
            },
        }
    }
}

/// Checks that an artifact can answer a request.
pub fn admit_request(half: HttpHalf, request: &HttpRequest) -> (admitted: Result<(), Failure>)
    ensures
        match admission_flaw(half, *request) {
            None => admitted is Ok,
            Some((message, cause)) => admitted matches Err(failure) && failure.message@ == message
                && text::optional_text(failure.cause) == cause,
        },
{
    let checked = check_http_half(half);
    if let HttpHalf::Unprepared = half {
        return checked;
    }
    match check_request(request) {
        Ok(()) => checked,
        Err(failure) => Err(failure),
    }
}

/// An answer as it is on the wire.
#[derive(Debug)]
pub struct RawHttpResponse {
    pub status: u16,
    pub headers: Vec<(String, Vec<u8>)>,
    pub body: Vec<u8>,
}

/// An answer as the host received it from the guest. The body may not have come
/// through; the host says why.
#[derive(Debug)]
pub struct GuestHttpResponse {
    pub status: u16,
    pub headers: Vec<(String, Vec<u8>)>,
    pub body: Result<Vec<u8>, String>,
}

/// The headers of an answer as texts, where every value is plain text.
pub open spec fn plain_headers(headers: Seq<(String, Vec<u8>)>) -> Option<
    Seq<(Seq<char>, Seq<char>)>,
>
    decreases headers.len(),
{
    if headers.len() == 0 {
        Some(Seq::empty())
    } else {
        match (plain_headers(headers.drop_last()), plain_text(headers.last().1@)) {
            (Some(rest), Some(value)) => Some(rest.push((headers.last().0@, value))),
            _ => None,
        }
    }
}

proof fn lemma_plain_headers_lost(headers: Seq<(String, Vec<u8>)>, n: int)
    requires
        0 <= n <= headers.len(),
        plain_headers(headers.take(n)) is None,
    ensures
        plain_headers(headers) is None,
    decreases headers.len(),
{
    if n < headers.len() {
        assert(headers.drop_last().take(n) =~= headers.take(n));
        lemma_plain_headers_lost(headers.drop_last(), n);
    } else {
        assert(headers.take(n) =~= headers);
    }
}

/// The headers of an answer as texts, where every value is plain text.
pub fn read_plain_headers(headers: &Vec<(String, Vec<u8>)>) -> (read: Option<Vec<(String, String)>>)
    ensures
        match read {
            Some(read) => plain_headers(headers@) == Some(text::text_pairs(read@)),
            None => plain_headers(headers@) is None,
        },
{
    let count = headers.len();
    let mut read: Vec<(String, String)> = Vec::new();
    let mut i: usize = 0;
    proof {
        assert(headers@.take(0) =~= Seq::<(String, Vec<u8>)>::empty());
        assert(text::text_pairs(read@) =~= Seq::<(Seq<char>, Seq<char>)>::empty());
    }
    while i < count
        invariant
            i <= count,
            count == headers@.len(),
            plain_headers(headers@.take(i as int)) == Some(text::text_pairs(read@)),
        decreases count - i,
    {
        let ghost before = read@;
        proof {
            assert(headers@.take(i + 1).drop_last() =~= headers@.take(i as int));
        }
        match header_text(headers[i].1.as_slice()) {
            Some(value) => {
                read.push((headers[i].0.clone(), value));
                proof {
                    assert(text::text_pairs(read@) =~= text::text_pairs(before).push(
                        (headers@[i as int].0@, value@),
                    ));
                }
            },
            None => {
                proof {
                    lemma_plain_headers_lost(headers@, i + 1);
                }
                return None;
            },
        }
        i += 1;
    }
    proof {
        assert(headers@.take(count as int) =~= headers@);
    }
    Some(read)
}

/// Why an HTTP execution failed, out of what was seen of it: the handler came
/// back with an error, no answer came, its headers are no texts, its body did not
/// come through, or the guest was interrupted or asked for too much memory.
pub open spec fn http_failure(
    called: Result<(), String>,
    answered: Result<GuestHttpResponse, String>,
    signal: ControlSignal,
    memory_exceeded: bool,
) -> Option<Seq<char>> {
    match (called, answered) {
        (Err(error), _) => Some("WASI HTTP incoming handler failed: "@ + error@),
        (Ok(_), Err(error)) => Some(error@),
        (Ok(_), Ok(answer)) => if plain_headers(answer.headers@) is None {
            Some("failed to convert header to a str"@)
        } else if answer.body is Err {
            Some(answer.body->Err_0@)
        } else {
            match signal {
                ControlSignal::Cancelled => Some("HTTP execution was cancelled"@),
                ControlSignal::TimedOut => Some("HTTP execution exceeded its timeout"@),
                ControlSignal::Clear => if memory_exceeded {
                    Some("HTTP execution exceeded its memory limit"@)
                } else {
                    None
                },
            }
        },
    }
}

/// The answer of an HTTP execution, out of what was seen of it.
pub fn conclude_http(
    called: Result<(), String>,
    answered: Result<GuestHttpResponse, String>,
    signal: ControlSignal,
    memory_exceeded: bool,
) -> (response: Result<HttpResponse, Failure>)
    ensures
        match http_failure(called, answered, signal, memory_exceeded) {
            Some(problem) => response matches Err(failure) && failure.says(problem),
            None => response matches Ok(response) && answered matches Ok(answer)
                && response.status == answer.status && answer.body == Ok::<Vec<u8>, String>(
                response.body,
            )
                && plain_headers(answer.headers@) == Some(text::text_pairs(response.headers@)),
        },
{
    if let Err(error) = called {
        return Err(Failure::of(concat2("WASI HTTP incoming handler failed: ", error.as_str())));
    }
    let answer = match answered {
        Ok(answer) => answer,
        Err(error) => {
            return Err(Failure::of(error));
        },
    };
    let headers = match read_plain_headers(&answer.headers) {
        Some(headers) => headers,
        None => {
            return Err(Failure::new("failed to convert header to a str"));
        },
    };
    let body = match answer.body {
        Ok(body) => body,
        Err(error) => {
            return Err(Failure::of(error));
        },
    };
    match signal {
        ControlSignal::Cancelled => Err(Failure::new("HTTP execution was cancelled")),
        ControlSignal::TimedOut => Err(Failure::new("HTTP execution exceeded its timeout")),
        ControlSignal::Clear => if memory_exceeded {
            Err(Failure::new("HTTP execution exceeded its memory limit"))
        } else {
            Ok(HttpResponse { status: answer.status, headers, body })
        },
    }
}

/// Headers are read as texts exactly where every byte of every value is a
/// visible ASCII character or a tab. None is lost, added or moved then: each
/// keeps its name, and its value has a character for each byte, with the same
/// code.
pub proof fn law_plain_headers_are_kept(headers: Seq<(String, Vec<u8>)>)
    ensures
        plain_headers(headers) is Some <==> forall|i: int, j: int|
            0 <= i < headers.len() && 0 <= j < headers[i].1@.len() ==> (
            #[trigger] headers[i].1@[j] == 9 || 32 <= headers[i].1@[j] <= 126),
        plain_headers(headers) matches Some(read) ==> {
            &&& read.len() == headers.len()
            &&& forall|i: int|
                0 <= i < headers.len() ==> (#[trigger] read[i]).0 == headers[i].0@
                    && read[i].1.len() == headers[i].1@.len()
            &&& forall|i: int, j: int|
                0 <= i < headers.len() && 0 <= j < headers[i].1@.len() ==> #[trigger] read[i].1[j]
                    as u32 == headers[i].1@[j] as u32
        },
    decreases headers.len(),
{
    if headers.len() > 0 {
        let front = headers.drop_last();
        let last = headers.last().1@;
        let at = headers.len() - 1;
        law_plain_headers_are_kept(front);
        assert forall|i: int| 0 <= i < front.len() implies front[i] == headers[i] by {}
        if plain_headers(front) is Some && plain_text(last) is Some {
            assert forall|i: int, j: int|
                0 <= i < headers.len() && 0 <= j < headers[i].1@.len() implies (
            #[trigger] headers[i].1@[j] == 9 || 32 <= headers[i].1@[j] <= 126) by {
                if i < at {
                    assert(front[i].1@[j] == headers[i].1@[j]);
                } else {
                    assert(is_plain_byte(last[j]));
                }
            }
            let rest = plain_headers(front)->0;
            let read = plain_headers(headers)->0;
            assert forall|i: int| 0 <= i < headers.len() implies (#[trigger] read[i]).0
                == headers[i].0@ && read[i].1.len() == headers[i].1@.len() by {
                if i < at {
                    assert(read[i] == rest[i]);
                }
            }
            assert forall|i: int, j: int|
                0 <= i < headers.len() && 0 <= j
                    < headers[i].1@.len() implies #[trigger] read[i].1[j] as u32
                == headers[i].1@[j] as u32 by {
                if i < at {
                    assert(read[i] == rest[i]);
                    assert(rest[i].1[j] as u32 == front[i].1@[j] as u32);
                } else {
                    assert(is_plain_byte(last[j]));
                }
            }
        } else if plain_headers(front) is None {
            let (i, j) = choose|i: int, j: int|
                0 <= i < front.len() && 0 <= j < front[i].1@.len() && !(
                #[trigger] front[i].1@[j] == 9 || 32 <= front[i].1@[j] <= 126);
            assert(front[i].1@[j] == headers[i].1@[j]);
        } else {
            let j = choose|j: int| 0 <= j < last.len() && !is_plain_byte(#[trigger] last[j]);
            assert(headers[at].1@[j] == last[j]);
        }
    }
}

/// An execution has an answer exactly where the handler came back, the guest
/// answered, every header is plain text, the body came through, nobody
/// interrupted the guest and its memory sufficed. The answer is the guest's then,
/// whatever its status is.
pub proof fn law_answers_are_handed_on(
    called: Result<(), String>,
    answered: Result<GuestHttpResponse, String>,
    signal: ControlSignal,
    memory_exceeded: bool,
    response: Result<HttpResponse, Failure>,
)
    requires
        call_ensures(conclude_http, (called, answered, signal, memory_exceeded), response),
    ensures
        response is Ok <==> {
            &&& called is Ok
            &&& answered is Ok
            &&& answered->Ok_0.body is Ok
            &&& signal == ControlSignal::Clear
            &&& !memory_exceeded
            &&& forall|i: int, j: int|
                0 <= i < answered->Ok_0.headers@.len() && 0 <= j
                    < answered->Ok_0.headers@[i].1@.len() ==> (
                #[trigger] answered->Ok_0.headers@[i].1@[j] == 9 || 32
                    <= answered->Ok_0.headers@[i].1@[j] <= 126)
        },
        response matches Ok(response) ==> {
            &&& response.status == answered->Ok_0.status
            &&& answered->Ok_0.body == Ok::<Vec<u8>, String>(response.body)
            &&& response.headers@.len() == answered->Ok_0.headers@.len()
            &&& forall|i: int|
                0 <= i < response.headers@.len() ==> (#[trigger] response.headers@[i]).0@
                    == answered->Ok_0.headers@[i].0@ && response.headers@[i].1@.len()
                    == answered->Ok_0.headers@[i].1@.len()
            &&& forall|i: int, j: int|
                0 <= i < response.headers@.len() && 0 <= j < response.headers@[i].1@.len()
                    ==> #[trigger] response.headers@[i].1@[j] as u32
                    == answered->Ok_0.headers@[i].1@[j] as u32
        },
{
    if let Ok(answer) = answered {
        law_plain_headers_are_kept(answer.headers@);
        if let Ok(response) = response {
            let read = text::text_pairs(response.headers@);
            assert(read.len() == response.headers@.len());
            assert forall|i: int| 0 <= i < response.headers@.len() implies (
            #[trigger] response.headers@[i]).0@ == answer.headers@[i].0@
                && response.headers@[i].1@.len() == answer.headers@[i].1@.len() by {
                assert(read[i] == (response.headers@[i].0@, response.headers@[i].1@));
            }
            assert forall|i: int, j: int|
                0 <= i < response.headers@.len() && 0 <= j
                    < response.headers@[i].1@.len() implies #[trigger] response.headers@[i].1@[j] as u32
                == answer.headers@[i].1@[j] as u32 by {
                assert(read[i] == (response.headers@[i].0@, response.headers@[i].1@));
                assert(read[i].1[j] as u32 == answer.headers@[i].1@[j] as u32);
            }
        }
    }
}

/// Which failure of an execution is told goes by when it came: an error of the
/// handler hides all others, then comes that there is no answer, then what the
/// guest answered, and only where all of that is in order an interruption.
pub proof fn law_http_failures_come_in_order(
    called: Result<(), String>,
    answered: Result<GuestHttpResponse, String>,
    signal: ControlSignal,
    memory_exceeded: bool,
    response: Result<HttpResponse, Failure>,
)
    requires
        call_ensures(conclude_http, (called, answered, signal, memory_exceeded), response),
    ensures
        called matches Err(error) ==> response is Err && response->Err_0.says(
            "WASI HTTP incoming handler failed: "@ + error@,
        ),
        called is Ok ==> (answered matches Err(error) ==> response is Err && response->Err_0.says(
            error@,
        )),
        called is Ok ==> (answered matches Ok(answer) ==> {
            &&& (plain_headers(answer.headers@) is None ==> response is Err
                && response->Err_0.says("failed to convert header to a str"@))
            &&& (plain_headers(answer.headers@) is Some ==> (answer.body matches Err(error)
                ==> response is Err && response->Err_0.says(error@)))
            &&& (plain_headers(answer.headers@) is Some && answer.body is Ok ==> {
                &&& (signal == ControlSignal::Cancelled ==> response is Err
                    && response->Err_0.says("HTTP execution was cancelled"@))
                &&& (signal == ControlSignal::TimedOut ==> response is Err
                    && response->Err_0.says("HTTP execution exceeded its timeout"@))
                &&& (signal == ControlSignal::Clear && memory_exceeded ==> response is Err
                    && response->Err_0.says("HTTP execution exceeded its memory limit"@))
            })
        }),
{
}

/// Where an invocation stands in the path of invocations that led to it.
#[derive(Debug)]
pub struct InvocationContext {
    pub parent_execution_id: Option<String>,
    pub depth: u16,
    pub source_garage_id: Option<String>,
    pub visited_garages: Vec<String>,
    pub application_id: Option<String>,
    pub release_id: Option<String>,
}

fn copy_optional(s: &Option<String>) -> (copy: Option<String>)
    ensures
        text::optional_text(copy) == text::optional_text(*s),
{
    match s {
        Some(s) => Some(s.clone()),
        None => None,
    }
}

/// The depth one below another, as far as it can be told.
pub open spec fn deeper(depth: u16) -> u16 {
    if depth == u16::MAX {
        u16::MAX
    } else {
        (depth + 1) as u16
    }
}

/// Whether a context is that of an invocation that another one makes: one
/// deeper, and the same otherwise.
pub open spec fn is_child_of(child: InvocationContext, parent: InvocationContext) -> bool {
    &&& child.depth == deeper(parent.depth)
    &&& text::optional_text(child.parent_execution_id) == text::optional_text(
        parent.parent_execution_id,
    )
    &&& text::optional_text(child.source_garage_id) == text::optional_text(
        parent.source_garage_id,
    )
    &&& text::texts(child.visited_garages@) == text::texts(parent.visited_garages@)
    &&& text::optional_text(child.application_id) == text::optional_text(parent.application_id)
    &&& text::optional_text(child.release_id) == text::optional_text(parent.release_id)
}

impl InvocationContext {
    /// The context of an invocation that is made in this one.
    pub fn child(&self) -> (child: InvocationContext)
        ensures
            is_child_of(child, *self),
    {
        InvocationContext {
            parent_execution_id: copy_optional(&self.parent_execution_id),
            depth: if self.depth == u16::MAX {
                u16::MAX
            } else {
                self.depth + 1
            },
            source_garage_id: copy_optional(&self.source_garage_id),
            visited_garages: copy_strings(&self.visited_garages),
            application_id: copy_optional(&self.application_id),
            release_id: copy_optional(&self.release_id),
        }
    }
}

/// A logical service, and what is asked of it.
#[derive(Debug)]
pub struct PitUri {
    pub service: String,
    pub path_and_query: String,
}

/// An invocation of a logical service.
#[derive(Debug)]
pub struct ServiceInvocation {
    pub target: PitUri,
    pub method: String,
    pub headers: Vec<(String, String)>,
    pub body: Vec<u8>,
    pub context: InvocationContext,
}

/// What a logical service answers.
#[derive(Debug)]
pub struct ServiceReply {
    pub status: u16,
    pub headers: Vec<(String, Vec<u8>)>,
    pub body: Vec<u8>,
}

/// Why a request that a guest sends is refused.
#[derive(Debug, Clone, Copy, PartialEq, Eq, Structural)]
pub enum OutgoingRefusal {
    /// The request names no host.
    UriInvalid,
    /// The request is not allowed, or failed.
    Denied,
}

/// The logical URI that a guest asks for, by the host and the path of its
/// request. Without a path it is the root.
pub fn logical_uri(authority: &Option<String>, path: &Option<String>) -> (uri: Result<
    String,
    OutgoingRefusal,
>)
    ensures
        match *authority {
            None => uri == Err::<String, OutgoingRefusal>(OutgoingRefusal::UriInvalid),
            Some(authority) => uri matches Ok(uri) && uri@ == "pit://"@ + authority@ + match *path {
                Some(path) => path@,
                None => "/"@,
            },
        },
{
    match authority {
        None => Err(OutgoingRefusal::UriInvalid),
        Some(authority) => match path {
            Some(path) => Ok(concat3("pit://", authority.as_str(), path.as_str())),
            None => Ok(concat3("pit://", authority.as_str(), "/")),
        },
    }
}

/// The headers that have a name and a value, with their names in small letters.
pub open spec fn usable_headers(headers: Seq<(Seq<char>, Seq<char>)>) -> Seq<
    (Seq<char>, Seq<char>),
>
    decreases headers.len(),
{
    if headers.len() == 0 {
        Seq::empty()
    } else {
        let rest = usable_headers(headers.drop_last());
        let (name, value) = headers.last();
        if is_header_name(name) && is_header_value(value) {
            rest.push((small_text(name), value))
        } else {
            rest
        }
    }
}

/// The headers that have a name and a value.
pub fn keep_usable_headers(headers: &Vec<(String, String)>) -> (kept: Vec<(String, String)>)
    ensures
        text::text_pairs(kept@) == usable_headers(text::text_pairs(headers@)),
{
    let ghost all = text::text_pairs(headers@);
    let count = headers.len();
    let mut kept: Vec<(String, String)> = Vec::new();
    let mut i: usize = 0;
    proof {
        assert(all.take(0) =~= Seq::<(Seq<char>, Seq<char>)>::empty());
        assert(text::text_pairs(kept@) =~= Seq::<(Seq<char>, Seq<char>)>::empty());
    }
    while i < count
        invariant
            i <= count,
            count == headers@.len(),
            all == text::text_pairs(headers@),
            text::text_pairs(kept@) == usable_headers(all.take(i as int)),
        decreases count - i,
    {
        let ghost before = kept@;
        proof {
            assert(all.take(i + 1).drop_last() =~= all.take(i as int));
            assert(all.take(i + 1).last() == (headers@[i as int].0@, headers@[i as int].1@));
        }
        match (
            read_header_name(headers[i].0.as_str()),
            read_header_value(headers[i].1.as_str()),
        ) {
            (Ok(name), Ok(())) => {
                kept.push((name, headers[i].1.clone()));
                proof {
                    assert(text::text_pairs(kept@) =~= text::text_pairs(before).push(
                        (name@, headers@[i as int].1@),
                    ));
                }
            },
            _ => {},
        }
        i += 1;
    }
    proof {
        assert(all.take(count as int) =~= all);
    }
    kept
}

/// A header is kept exactly where its name is a name and its value is a value.
/// A kept one has its value as it was and its name in small letters, and there is
/// no header among the kept ones that does not come from one of the given.
pub proof fn law_usable_headers_are_kept(headers: Seq<(Seq<char>, Seq<char>)>)
    ensures
        usable_headers(headers).len() <= headers.len(),
        are_headers(headers) <==> usable_headers(headers).len() == headers.len(),
        forall|i: int|
            0 <= i < headers.len() && is_header_name((#[trigger] headers[i]).0) && is_header_value(
                headers[i].1,
            ) ==> usable_headers(headers).contains((small_text(headers[i].0), headers[i].1)),
        forall|k: int|
            0 <= k < usable_headers(headers).len() ==> exists|i: int|
                0 <= i < headers.len() && is_header_name((#[trigger] headers[i]).0)
                    && is_header_value(headers[i].1) && (#[trigger] usable_headers(headers)[k]) == (
                    small_text(headers[i].0),
                    headers[i].1,
                ),
    decreases headers.len(),
{
    if headers.len() > 0 {
        let front = headers.drop_last();
        let rest = usable_headers(front);
        let all = usable_headers(headers);
        let at = headers.len() - 1;
        law_usable_headers_are_kept(front);
        if are_headers(headers) {
            assert forall|i: int| 0 <= i < front.len() implies is_header_name(
                (#[trigger] front[i]).0,
            ) && is_header_value(front[i].1) by {
                assert(front[i] == headers[i]);
            }
            assert(is_header_name(headers[at].0));
        } else if are_headers(front) {
            assert forall|i: int| 0 <= i < front.len() implies is_header_name(
                (#[trigger] headers[i]).0,
            ) && is_header_value(headers[i].1) by {
                assert(front[i] == headers[i]);
            }
        }
        assert forall|i: int|
            0 <= i < headers.len() && is_header_name((#[trigger] headers[i]).0) && is_header_value(
                headers[i].1,
            ) implies all.contains((small_text(headers[i].0), headers[i].1)) by {
            let header = (small_text(headers[i].0), headers[i].1);
            if i < at {
                assert(front[i] == headers[i]);
                let k = choose|k: int| 0 <= k < rest.len() && rest[k] == header;
                assert(all[k] == header);
            } else {
                assert(all[all.len() - 1] == header);
            }
        }
        assert forall|k: int| 0 <= k < all.len() implies exists|i: int|
            0 <= i < headers.len() && is_header_name((#[trigger] headers[i]).0) && is_header_value(
                headers[i].1,
            ) && (#[trigger] all[k]) == (small_text(headers[i].0), headers[i].1) by {
            if k < rest.len() {
                assert(all[k] == rest[k]);
                let i = choose|i: int|
                    0 <= i < front.len() && is_header_name((#[trigger] front[i]).0)
                        && is_header_value(front[i].1) && rest[k] == (
                        small_text(front[i].0),
                        front[i].1,
                    );
                assert(headers[i] == front[i]);
            } else {
                assert(headers[at] == headers.last());
            }
        }
    }
}

/// Which headers are kept, and in which order, does not depend on their
/// neighbours: of two lists behind each other, what is kept of the one stands
/// before what is kept of the other.
pub proof fn law_usable_headers_keep_their_order(
    before: Seq<(Seq<char>, Seq<char>)>,
    after: Seq<(Seq<char>, Seq<char>)>,
)
    ensures
        usable_headers(before + after) == usable_headers(before) + usable_headers(after),
    decreases after.len(),
{
    if after.len() == 0 {
        assert(before + after =~= before);
    } else {
        assert((before + after).drop_last() =~= before + after.drop_last());
        assert((before + after).last() == after.last());
        law_usable_headers_keep_their_order(before, after.drop_last());
    }
}

/// The name of a header is written in small letters: it has as many characters,
/// no capital ASCII letter is left in it, each capital letter became the small
/// one of the same letter, and nothing else of it changed. It is found under the
/// old name, for the case of letters does not matter.
pub proof fn law_header_names_are_written_small(name: Seq<char>)
    ensures
        small_text(name).len() == name.len(),
        text::same_ignoring_case(small_text(name), name),
        small_text(small_text(name)) == small_text(name),
        forall|i: int|
            0 <= i < name.len() ==> !('A' <= (#[trigger] small_text(name)[i]) <= 'Z') && (if 'A'
                <= name[i] <= 'Z' {
                small_text(name)[i] as u32 - 'a' as u32 == name[i] as u32 - 'A' as u32
            } else {
                small_text(name)[i] == name[i]
            }),
{
    let low = small_text(name);
    assert forall|i: int| 0 <= i < name.len() implies text::ascii_folded(#[trigger] low[i])
        == text::ascii_folded(name[i]) by {}
    assert(small_text(low) =~= low);
}

/// Turns a request that a guest sends into an invocation of a logical service.
/// It is denied where the URI names no service, no service can be invoked, a
/// header is no text, or the body could not be read.
pub fn outgoing_invocation(
    target: Result<PitUri, String>,
    invoker_enabled: bool,
    method: String,
    headers: &Vec<(String, Vec<u8>)>,
    body: Result<Vec<u8>, String>,
    context: &InvocationContext,
) -> (invocation: Result<ServiceInvocation, OutgoingRefusal>)
    ensures
        match (target, plain_headers(headers@), body) {
            (Ok(target), Some(read), Ok(body)) if invoker_enabled => invocation matches Ok(
                invocation,
            ) && {
                &&& invocation.target == target
                &&& invocation.method == method
                &&& text::text_pairs(invocation.headers@) == usable_headers(read)
                &&& invocation.body == body
                &&& is_child_of(invocation.context, *context)
            },
            _ => invocation == Err::<ServiceInvocation, OutgoingRefusal>(OutgoingRefusal::Denied),
        },
{
    let target = match target {
        Ok(target) => target,
        Err(_) => {
            return Err(OutgoingRefusal::Denied);
        },
    };
    if !invoker_enabled {
        return Err(OutgoingRefusal::Denied);
    }
    let read = match read_plain_headers(headers) {
        Some(read) => read,
        None => {
            return Err(OutgoingRefusal::Denied);
        },
    };
    let body = match body {
        Ok(body) => body,
        Err(_) => {
            return Err(OutgoingRefusal::Denied);
        },
    };
    let headers = keep_usable_headers(&read);
    Ok(ServiceInvocation { target, method, headers, body, context: context.child() })
}

/// Whether a name is among those of some headers.
pub open spec fn has_name(headers: Seq<(Seq<char>, Seq<u8>)>, name: Seq<char>) -> bool {
    exists|i: int| 0 <= i < headers.len() && (#[trigger] headers[i]).0 == name
}

/// Headers over texts and bytes.
pub open spec fn header_bytes(headers: Seq<(String, Vec<u8>)>) -> Seq<(Seq<char>, Seq<u8>)> {
    headers.map_values(|header: (String, Vec<u8>)| (header.0@, header.1@))
}

/// The first header of each name.
pub open spec fn first_of_each(headers: Seq<(Seq<char>, Seq<u8>)>) -> Seq<(Seq<char>, Seq<u8>)>
    decreases headers.len(),
{
    if headers.len() == 0 {
        Seq::empty()
    } else {
        let rest = headers.drop_last();
        if has_name(rest, headers.last().0) {
            first_of_each(rest)
        } else {
            first_of_each(rest).push(headers.last())
        }
    }
}

/// The answer to a request that a guest sent: the length of the body, and the
/// first header of each name that the service answered. A failed invocation is
/// denied.
pub fn incoming_reply(reply: Result<ServiceReply, String>) -> (answer: Result<
    RawHttpResponse,
    OutgoingRefusal,
>)
    ensures
        match reply {
            Err(_) => answer == Err::<RawHttpResponse, OutgoingRefusal>(OutgoingRefusal::Denied),
            Ok(reply) => answer matches Ok(answer) && {
                &&& answer.status == reply.status
                &&& answer.body == reply.body
                &&& answer.headers@.len() >= 1
                &&& answer.headers@[0].0@ == "content-length"@
                &&& answer.headers@[0].1@ == vstd::utf8::encode_utf8(
                    text::decimal(reply.body@.len()),
                )
                &&& header_bytes(answer.headers@.skip(1)) == first_of_each(
                    header_bytes(reply.headers@),
                )
            },
        },
{
    let reply = match reply {
        Ok(reply) => reply,
        Err(_) => {
            return Err(OutgoingRefusal::Denied);
        },
    };
    let length = decimal_string(reply.body.len() as u64);
    let mut headers: Vec<(String, Vec<u8>)> = Vec::new();
    headers.push(
        ("content-length".to_owned(), crate::artifact::copied(length.as_str().as_bytes())),
    );
    let ghost first = headers@[0];
    let ghost all = header_bytes(reply.headers@);
    let count = reply.headers.len();
    let mut i: usize = 0;
    proof {
        assert(all.take(0) =~= Seq::<(Seq<char>, Seq<u8>)>::empty());
        assert(header_bytes(headers@.skip(1)) =~= Seq::<(Seq<char>, Seq<u8>)>::empty());
    }
    while i < count
        invariant
            i <= count,
            count == reply.headers@.len(),
            all == header_bytes(reply.headers@),
            headers@.len() >= 1,
            headers@[0] == first,
            header_bytes(headers@.skip(1)) == first_of_each(all.take(i as int)),
        decreases count - i,
    {
        let ghost before = headers@;
        let mut seen = false;
        let mut k: usize = 0;
        while k < i
            invariant
                k <= i < count,
                count == reply.headers@.len(),
                all == header_bytes(reply.headers@),
                seen == has_name(all.take(k as int), all[i as int].0),
            decreases i - k,
        {
            proof {
                let (shorter, longer) = (all.take(k as int), all.take(k + 1));
                let name = all[i as int].0;
                if has_name(shorter, name) {
                    let m = choose|m: int|
                        0 <= m < shorter.len() && (#[trigger] shorter[m]).0 == name;
                    assert(longer[m].0 == name);
                }
                if all[k as int].0 == name {
                    assert(longer[k as int].0 == name);
                } else if has_name(longer, name) {
                    let m = choose|m: int|
                        0 <= m < longer.len() && (#[trigger] longer[m]).0 == name;
                    assert(shorter[m].0 == name);
                }
            }
            if same(reply.headers[k].0.as_str(), reply.headers[i].0.as_str()) {
                seen = true;
            }
            k += 1;
        }
        proof {
            assert(all.take(i + 1).drop_last() =~= all.take(i as int));
        }
        if !seen {
            headers.push(
                (
                    reply.headers[i].0.clone(),
                    crate::artifact::copied(reply.headers[i].1.as_slice()),
                ),
            );
            proof {
                assert(headers@.skip(1) =~= before.skip(1).push(headers@.last()));
                assert(header_bytes(headers@.skip(1)) =~= header_bytes(before.skip(1)).push(
                    all[i as int],
                ));
            }
        }
        i += 1;
    }
    proof {
        assert(all.take(count as int) =~= all);
    }
    Ok(RawHttpResponse { status: reply.status, headers, body: reply.body })
}

/// Why an invocation that a guest makes by name fails.
#[derive(Debug)]
pub enum ServiceError {
    InvalidUri(String),
    Unavailable(String),
}

/// Turns an invocation that a guest makes by name into one of a logical
/// service. The URI is looked at first, then whether services can be invoked,
/// then the method, then the headers.
pub fn service_invocation(
    target: Result<PitUri, String>,
    invoker_enabled: bool,
    method: &str,
    headers: &Vec<(String, String)>,
    body: Vec<u8>,
    context: &InvocationContext,
) -> (invocation: Result<ServiceInvocation, ServiceError>)
    ensures
        match target {
            Err(error) => invocation matches Err(ServiceError::InvalidUri(told)) && told == error,
            Ok(target) => if !invoker_enabled {
                invocation matches Err(ServiceError::Unavailable(told)) && told@
                    == "service invocation is not enabled"@
            } else if !is_token(method@) {
                invocation matches Err(ServiceError::Unavailable(told)) && told@
                    == "invalid method: "@ + "invalid HTTP method"@
            } else {
                match header_problem(text::text_pairs(headers@)) {
                    Some(problem) => invocation matches Err(ServiceError::Unavailable(told))
                        && told@ == "invalid header: "@ + problem,
                    None => invocation matches Ok(invocation) && {
                        &&& invocation.target == target
                        &&& invocation.method@ == method@
                        &&& text::text_pairs(invocation.headers@) == canonical_headers(
                            text::text_pairs(headers@),
                        )
                        &&& invocation.body == body
                        &&& is_child_of(invocation.context, *context)
                    },
                }
            },
        },
{
    let target = match target {
        Ok(target) => target,
        Err(error) => {
            return Err(ServiceError::InvalidUri(error));
        },
    };
    if !invoker_enabled {
        return Err(ServiceError::Unavailable("service invocation is not enabled".to_owned()));
    }
    let method = match read_method(method) {
        Ok(method) => method,
        Err(error) => {
            return Err(ServiceError::Unavailable(concat2("invalid method: ", error.as_str())));
        },
    };
    let headers = match read_headers(headers) {
        Ok(headers) => headers,
        Err(error) => {
            return Err(ServiceError::Unavailable(concat2("invalid header: ", error.as_str())));
        },
    };
    Ok(ServiceInvocation { target, method, headers, body, context: context.child() })
}

/// What came of an invocation.
#[derive(Debug)]
pub enum InvokeOutcome {
    /// The thread that ran it panicked.
    Panicked,
    Failed(String),
    Replied(ServiceReply),
}

/// The headers of an answer as texts; a value that is no text is left empty.
pub open spec fn shown_headers(headers: Seq<(String, Vec<u8>)>) -> Seq<(Seq<char>, Seq<char>)> {
    headers.map_values(
        |header: (String, Vec<u8>)|
            (
                header.0@,
                match plain_text(header.1@) {
                    Some(value) => value,
                    None => Seq::<char>::empty(),
                },
            ),
    )
}

/// The headers of an answer as texts; a value that is no text is left empty.
pub fn show_headers(headers: &Vec<(String, Vec<u8>)>) -> (shown: Vec<(String, String)>)
    ensures
        text::text_pairs(shown@) == shown_headers(headers@),
{
    let count = headers.len();
    let mut shown: Vec<(String, String)> = Vec::new();
    let mut i: usize = 0;
    while i < count
        invariant
            i <= count,
            count == headers@.len(),
            shown@.len() == i,
            forall|k: int|
                0 <= k < i ==> (#[trigger] shown@[k]).0@ == headers@[k].0@ && shown@[k].1@
                    == match plain_text(headers@[k].1@) {
                    Some(value) => value,
                    None => Seq::<char>::empty(),
                },
        decreases count - i,
    {
        let value = match header_text(headers[i].1.as_slice()) {
            Some(value) => value,
            None => {
                proof {
                    reveal_strlit("");
                    assert(""@ =~= Seq::<char>::empty());
                }
                "".to_owned()
            },
        };
        shown.push((headers[i].0.clone(), value));
        i += 1;
    }
    proof {
        assert(text::text_pairs(shown@) =~= shown_headers(headers@));
    }
    shown
}

/// The answer to an invocation that a guest made by name.
pub fn service_response(outcome: InvokeOutcome) -> (response: Result<HttpResponse, ServiceError>)
    ensures
        match outcome {
            InvokeOutcome::Panicked => response matches Err(ServiceError::Unavailable(told))
                && told@ == "service invocation thread panicked"@,
            InvokeOutcome::Failed(error) => response matches Err(ServiceError::Unavailable(told))
                && told == error,
            InvokeOutcome::Replied(reply) => response matches Ok(response) && {
                &&& response.status == reply.status
                &&& text::text_pairs(response.headers@) == shown_headers(reply.headers@)
                &&& response.body == reply.body
            },
        },
{
    match outcome {
        InvokeOutcome::Panicked => Err(
            ServiceError::Unavailable("service invocation thread panicked".to_owned()),
        ),
        InvokeOutcome::Failed(error) => Err(ServiceError::Unavailable(error)),
        InvokeOutcome::Replied(reply) => {
            let headers = show_headers(&reply.headers);
            Ok(HttpResponse { status: reply.status, headers, body: reply.body })
        },
    }
}

/// Every invocation in a path of invocations is one deeper than the one that
/// makes it, until the depth can no longer be told.
pub proof fn law_children_are_deeper(child: InvocationContext, parent: InvocationContext)
    requires
        is_child_of(child, parent),
    ensures
        child.depth > parent.depth || parent.depth == u16::MAX,
{
}

/// An invocation has the same origin as the one that makes it and is exactly one
/// deeper, unless the depth can no longer be told.
pub proof fn law_children_keep_their_origin(parent: InvocationContext, child: InvocationContext)
    requires
        call_ensures(InvocationContext::child, (&parent,), child),
    ensures
        parent.depth < u16::MAX ==> child.depth == parent.depth + 1,
        parent.depth == u16::MAX ==> child.depth == parent.depth,
        child.parent_execution_id is Some <==> parent.parent_execution_id is Some,
        child.parent_execution_id is Some ==> child.parent_execution_id->0@
            == parent.parent_execution_id->0@,
        child.source_garage_id is Some <==> parent.source_garage_id is Some,
        child.source_garage_id is Some ==> child.source_garage_id->0@ == parent.source_garage_id->0@,
        child.application_id is Some <==> parent.application_id is Some,
        child.application_id is Some ==> child.application_id->0@ == parent.application_id->0@,
        child.release_id is Some <==> parent.release_id is Some,
        child.release_id is Some ==> child.release_id->0@ == parent.release_id->0@,
        child.visited_garages@.len() == parent.visited_garages@.len(),
        forall|i: int|
            0 <= i < child.visited_garages@.len() ==> (#[trigger] child.visited_garages@[i])@
                == parent.visited_garages@[i]@,
{
    let (a, b) = (text::texts(child.visited_garages@), text::texts(parent.visited_garages@));
    assert(a.len() == child.visited_garages@.len());
    assert(b.len() == parent.visited_garages@.len());
    assert forall|i: int| 0 <= i < child.visited_garages@.len() implies (
    #[trigger] child.visited_garages@[i])@ == parent.visited_garages@[i]@ by {
        assert(a[i] == b[i]);
        assert(a[i] == child.visited_garages@[i]@);
        assert(b[i] == parent.visited_garages@[i]@);
    }
}

/// The addresses of this machine itself are those from 127.0.0.0 to
/// 127.255.255.255 and ::1, whatever the port.
pub proof fn law_loopback_addresses(endpoint: TcpEndpoint)
    ensures
        endpoint.loopback() <==> match endpoint {
            TcpEndpoint::V4 { address, .. } => 0x7f00_0000 <= address <= 0x7fff_ffff,
            TcpEndpoint::V6 { long_address, .. } => long_address == 1,
        },
{
}

/// A guest may do nothing with an address but connect to it, and that exactly
/// where the very address and port are among those that it was given.
pub proof fn law_guests_connect_where_they_may(
    allowed: Vec<TcpEndpoint>,
    endpoint: TcpEndpoint,
    purpose: SocketUse,
    may: bool,
)
    requires
        call_ensures(socket_allowed, (&allowed, endpoint, purpose), may),
    ensures
        may <==> purpose is TcpConnect && exists|i: int|
            0 <= i < allowed@.len() && #[trigger] allowed@[i] == endpoint,
{
}

/// A request can be handed to a guest exactly where its method is a token, its
/// target is a URI, and every header has a name and a value. Its body, its
/// variables and where it comes from do not matter.
pub proof fn law_requests_are_checked_by_their_parts(
    request: HttpRequest,
    checked: Result<(), Failure>,
)
    requires
        call_ensures(check_request, (&request,), checked),
    ensures
        checked is Ok <==> {
            &&& is_token(request.method@)
            &&& uri_problem(request.path_and_query@) is None
            &&& forall|i: int|
                0 <= i < request.headers@.len() ==> is_header_name(
                    (#[trigger] request.headers@[i]).0@,
                ) && is_header_value(request.headers@[i].1@)
        },
        checked matches Err(failure) ==> failure.message@ == "invalid HTTP request"@
            && failure.cause is Some,
{
    let all = text::text_pairs(request.headers@);
    assert(all.len() == request.headers@.len());
    assert forall|i: int| 0 <= i < all.len() implies #[trigger] all[i] == (
        request.headers@[i].0@,
        request.headers@[i].1@,
    ) by {}
    if are_headers(all) {
        assert forall|i: int| 0 <= i < request.headers@.len() implies is_header_name(
            (#[trigger] request.headers@[i]).0@,
        ) && is_header_value(request.headers@[i].1@) by {
            assert(is_header_name(all[i].0));
        }
    } else {
        let i = choose|i: int|
            0 <= i < all.len() && !(is_header_name((#[trigger] all[i]).0) && is_header_value(
                all[i].1,
            ));
        assert(all[i].0 == request.headers@[i].0@);
    }
}

/// An artifact answers a request exactly where its engine and its component for
/// requests were prepared and the request can be handed to a guest.
pub proof fn law_prepared_artifacts_answer(
    half: HttpHalf,
    request: HttpRequest,
    checked: Result<(), Failure>,
    admitted: Result<(), Failure>,
)
    requires
        call_ensures(check_request, (&request,), checked),
        call_ensures(admit_request, (half, &request), admitted),
    ensures
        admitted is Ok <==> !(half is Unprepared) && !(half is EngineOnly) && checked is Ok,
        half is Unprepared ==> admitted is Err && admitted->Err_0.says(
            "HTTP engine was not prepared"@,
        ),
        half is EngineOnly && checked is Ok ==> admitted is Err && admitted->Err_0.says(
            "HTTP component was not prepared"@,
        ),
        !(half is Unprepared) && checked is Err ==> admitted is Err
            && admitted->Err_0.message@ == "invalid HTTP request"@,
{
    law_requests_are_checked_by_their_parts(request, checked);
}

/// A request of a guest becomes an invocation exactly where its target is a
/// service, services can be invoked, every header is plain text and its body came
/// through; in every other case it is denied. Nothing of the request is changed
/// but that headers without a name or a value are left out, and the invocation is
/// one deeper than the guest.
pub proof fn law_outgoing_requests_become_invocations(
    target: Result<PitUri, String>,
    invoker_enabled: bool,
    method: String,
    headers: Vec<(String, Vec<u8>)>,
    body: Result<Vec<u8>, String>,
    context: InvocationContext,
    invocation: Result<ServiceInvocation, OutgoingRefusal>,
)
    requires
        call_ensures(
            outgoing_invocation,
            (target, invoker_enabled, method, &headers, body, &context),
            invocation,
        ),
    ensures
        invocation is Ok <==> {
            &&& target is Ok
            &&& invoker_enabled
            &&& body is Ok
            &&& forall|i: int, j: int|
                0 <= i < headers@.len() && 0 <= j < headers@[i].1@.len() ==> (
                #[trigger] headers@[i].1@[j] == 9 || 32 <= headers@[i].1@[j] <= 126)
        },
        invocation matches Ok(invocation) ==> {
            &&& invocation.target == target->Ok_0
            &&& invocation.method == method
            &&& body == Ok::<Vec<u8>, String>(invocation.body)
            &&& invocation.headers@.len() <= headers@.len()
            &&& text::text_pairs(invocation.headers@) == usable_headers(plain_headers(headers@)->0)
            &&& is_child_of(invocation.context, context)
            &&& invocation.context.depth == if context.depth == u16::MAX {
                context.depth as int
            } else {
                context.depth + 1
            }
        },
        invocation is Err ==> invocation->Err_0 is Denied,
{
    law_plain_headers_are_kept(headers@);
    if let Some(read) = plain_headers(headers@) {
        law_usable_headers_are_kept(read);
    }
}

/// A guest's call of a service by name becomes an invocation exactly where its
/// target is a service, services can be invoked, its method is a token, and every
/// header has a name and a value. A target that is no service is told apart from
/// all else that can be wrong.
pub proof fn law_calls_by_name_become_invocations(
    target: Result<PitUri, String>,
    invoker_enabled: bool,
    method: &str,
    headers: Vec<(String, String)>,
    body: Vec<u8>,
    context: InvocationContext,
    invocation: Result<ServiceInvocation, ServiceError>,
)
    requires
        call_ensures(
            service_invocation,
            (target, invoker_enabled, method, &headers, body, &context),
            invocation,
        ),
    ensures
        invocation is Ok <==> target is Ok && invoker_enabled && is_token(method@) && are_headers(
            text::text_pairs(headers@),
        ),
        invocation matches Ok(invocation) ==> {
            &&& invocation.target == target->Ok_0
            &&& invocation.method@ == method@
            &&& invocation.body == body
            &&& is_child_of(invocation.context, context)
            &&& invocation.headers@.len() == headers@.len()
            &&& forall|i: int|
                0 <= i < headers@.len() ==> (#[trigger] invocation.headers@[i]).0@ == small_text(
                    headers@[i].0@,
                ) && invocation.headers@[i].1@ == headers@[i].1@
            &&& invocation.context.depth == if context.depth == u16::MAX {
                context.depth as int
            } else {
                context.depth + 1
            }
        },
        invocation is Err ==> (invocation->Err_0 is InvalidUri <==> target is Err),
        target is Ok && !invoker_enabled ==> invocation is Err
            && invocation->Err_0->Unavailable_0@ == "service invocation is not enabled"@,
        target is Ok && invoker_enabled && !is_token(method@) ==> invocation is Err
            && invocation->Err_0->Unavailable_0@ == "invalid method: "@ + "invalid HTTP method"@,
        target is Ok && invoker_enabled && is_token(method@) && !are_headers(
            text::text_pairs(headers@),
        ) ==> invocation is Err && invocation->Err_0->Unavailable_0@ == "invalid header: "@
            + header_problem(text::text_pairs(headers@))->0,
{
    let all = text::text_pairs(headers@);
    lemma_header_problem(all);
    if let Ok(invocation) = invocation {
        let sent = text::text_pairs(invocation.headers@);
        assert(sent.len() == invocation.headers@.len());
        assert(all.len() == headers@.len());
        assert forall|i: int| 0 <= i < headers@.len() implies (
        #[trigger] invocation.headers@[i]).0@ == small_text(headers@[i].0@)
            && invocation.headers@[i].1@ == headers@[i].1@ by {
            assert(sent[i] == (invocation.headers@[i].0@, invocation.headers@[i].1@));
            assert(all[i] == (headers@[i].0@, headers@[i].1@));
        }
    }
}

/// Of several headers with one name the first is kept, and of each name one: no
/// name is lost, none comes twice, and each has the value that it had first.
pub proof fn law_the_first_header_of_a_name_is_kept(headers: Seq<(Seq<char>, Seq<u8>)>)
    ensures
        forall|name: Seq<char>| #[trigger]
            has_name(first_of_each(headers), name) <==> has_name(headers, name),
        forall|i: int, j: int|
            0 <= i < j < first_of_each(headers).len() ==> (#[trigger] first_of_each(headers)[i]).0
                != (#[trigger] first_of_each(headers)[j]).0,
        forall|i: int|
            0 <= i < headers.len() && !has_name(headers.take(i), (#[trigger] headers[i]).0)
                ==> first_of_each(headers).contains(headers[i]),
        first_of_each(headers).len() <= headers.len(),
    decreases headers.len(),
{
    if headers.len() > 0 {
        let front = headers.drop_last();
        let last = headers.last();
        let at = headers.len() - 1;
        let before = first_of_each(front);
        let all = first_of_each(headers);
        law_the_first_header_of_a_name_is_kept(front);
        assert forall|name: Seq<char>| #[trigger] has_name(all, name) <==> has_name(headers, name) by {
            if has_name(headers, name) {
                let i = choose|i: int| 0 <= i < headers.len() && (#[trigger] headers[i]).0 == name;
                if i < at {
                    assert(front[i].0 == name);
                    assert(has_name(front, name));
                }
                if has_name(front, name) {
                    assert(has_name(before, name));
                    let k = choose|k: int| 0 <= k < before.len() && (#[trigger] before[k]).0 == name;
                    assert(all[k].0 == name);
                } else {
                    assert(all[all.len() - 1].0 == name);
                }
            }
            if has_name(all, name) {
                let k = choose|k: int| 0 <= k < all.len() && (#[trigger] all[k]).0 == name;
                if k < before.len() {
                    assert(before[k].0 == name);
                    assert(has_name(before, name));
                    assert(has_name(front, name));
                    let i = choose|i: int| 0 <= i < front.len() && (#[trigger] front[i]).0 == name;
                    assert(headers[i].0 == name);
                } else {
                    assert(headers[at].0 == name);
                }
            }
        }
        assert forall|i: int, j: int| 0 <= i < j < all.len() implies (#[trigger] all[i]).0 != (
        #[trigger] all[j]).0 by {
            if j < before.len() {
                assert(before[i] == all[i] && before[j] == all[j]);
            } else {
                assert(before[i] == all[i]);
                if before[i].0 == last.0 {
                    assert(has_name(before, last.0));
                    assert(has_name(front, last.0));
                }
            }
        }
        assert forall|i: int|
            0 <= i < headers.len() && !has_name(
                headers.take(i),
                (#[trigger] headers[i]).0,
            ) implies all.contains(headers[i]) by {
            if i < at {
                assert(front[i] == headers[i]);
                assert(front.take(i) =~= headers.take(i));
                let k = choose|k: int| 0 <= k < before.len() && before[k] == headers[i];
                assert(all[k] == headers[i]);
            } else {
                assert(headers.take(i) =~= front);
                assert(all[all.len() - 1] == last);
            }
        }
    }
}

/// A service's answer comes back to the guest exactly where there is one, with its
/// status and its body as they are. The length of the body comes first among its
/// headers.
pub proof fn law_replies_come_back(
    reply: Result<ServiceReply, String>,
    answer: Result<RawHttpResponse, OutgoingRefusal>,
)
    requires
        call_ensures(incoming_reply, (reply,), answer),
    ensures
        answer is Ok <==> reply is Ok,
        answer is Err ==> answer->Err_0 is Denied,
        answer matches Ok(answer) ==> {
            &&& answer.status == reply->Ok_0.status
            &&& answer.body == reply->Ok_0.body
            &&& 1 <= answer.headers@.len() <= reply->Ok_0.headers@.len() + 1
            &&& header_bytes(answer.headers@.skip(1)) == first_of_each(
                header_bytes(reply->Ok_0.headers@),
            )
            &&& answer.headers@[0].0@ == "content-length"@
            &&& answer.headers@[0].1@ == vstd::utf8::encode_utf8(
                text::decimal(reply->Ok_0.body@.len()),
            )
            &&& forall|i: int, j: int|
                1 <= i < j < answer.headers@.len() ==> (#[trigger] answer.headers@[i]).0@ != (
                #[trigger] answer.headers@[j]).0@
        },
{
    if let Ok(answer) = answer {
        let given = header_bytes(reply->Ok_0.headers@);
        let rest = header_bytes(answer.headers@.skip(1));
        law_the_first_header_of_a_name_is_kept(given);
        assert(given.len() == reply->Ok_0.headers@.len());
        assert(rest.len() == answer.headers@.len() - 1);
        assert forall|i: int, j: int| 1 <= i < j < answer.headers@.len() implies (
        #[trigger] answer.headers@[i]).0@ != (#[trigger] answer.headers@[j]).0@ by {
            assert(rest[i - 1].0 == answer.headers@[i].0@);
            assert(rest[j - 1].0 == answer.headers@[j].0@);
        }
    }
}

/// The answer to a call by name is what the service answered, exactly where it
/// answered: its status, whatever that is, its body, and its headers with their
/// names. A header whose value is plain text keeps it, and another has none.
pub proof fn law_services_are_heard(
    outcome: InvokeOutcome,
    response: Result<HttpResponse, ServiceError>,
)
    requires
        call_ensures(service_response, (outcome,), response),
    ensures
        response is Ok <==> outcome is Replied,
        outcome matches InvokeOutcome::Replied(reply) ==> {
            &&& response is Ok
            &&& response->Ok_0.status == reply.status
            &&& response->Ok_0.body == reply.body
            &&& response->Ok_0.headers@.len() == reply.headers@.len()
            &&& forall|i: int|
                0 <= i < reply.headers@.len() ==> (#[trigger] response->Ok_0.headers@[i]).0@
                    == reply.headers@[i].0@ && (response->Ok_0.headers@[i].1@.len() == 0 || (
                plain_text(reply.headers@[i].1@) is Some && response->Ok_0.headers@[i].1@
                    == plain_text(reply.headers@[i].1@)->0))
            &&& forall|i: int|
                0 <= i < reply.headers@.len() && plain_text(
                    (#[trigger] reply.headers@[i]).1@,
                ) is Some ==> response->Ok_0.headers@[i].1@ == plain_text(reply.headers@[i].1@)->0
        },
        response is Err ==> response->Err_0 is Unavailable,
        outcome is Panicked ==> response->Err_0->Unavailable_0@
            == "service invocation thread panicked"@,
        outcome matches InvokeOutcome::Failed(error) ==> response->Err_0->Unavailable_0 == error,
{
    if let InvokeOutcome::Replied(reply) = outcome {
        let shown = text::text_pairs(response->Ok_0.headers@);
        assert(shown.len() == response->Ok_0.headers@.len());
        assert forall|i: int| 0 <= i < reply.headers@.len() implies #[trigger] shown[i] == (
            response->Ok_0.headers@[i].0@,
            response->Ok_0.headers@[i].1@,
        ) by {}
        assert forall|i: int| 0 <= i < reply.headers@.len() implies (
        #[trigger] response->Ok_0.headers@[i]).0@ == reply.headers@[i].0@ && (
        response->Ok_0.headers@[i].1@.len() == 0 || (plain_text(reply.headers@[i].1@) is Some
            && response->Ok_0.headers@[i].1@ == plain_text(reply.headers@[i].1@)->0)) by {
            assert(shown[i].0 == reply.headers@[i].0@);
        }
        assert forall|i: int|
            0 <= i < reply.headers@.len() && plain_text(
                (#[trigger] reply.headers@[i]).1@,
            ) is Some implies response->Ok_0.headers@[i].1@ == plain_text(
            reply.headers@[i].1@,
        )->0 by {
            assert(shown[i].0 == reply.headers@[i].0@);
        }
    }
}

/// The first header that is refused is the one that is told, by whether its name or
/// its value is at fault.
pub proof fn law_the_first_bad_header_is_told(headers: Seq<(Seq<char>, Seq<char>)>, at: int)
    requires
        0 <= at < headers.len(),
        !is_header_name(headers[at].0) || !is_header_value(headers[at].1),
        forall|i: int|
            0 <= i < at ==> is_header_name((#[trigger] headers[i]).0) && is_header_value(
                headers[i].1,
            ),
    ensures
        header_problem(headers) == Some(
            if !is_header_name(headers[at].0) {
                "invalid HTTP header name"@
            } else {
                "failed to parse header value"@
            },
        ),
{
    let front = headers.take(at + 1);
    let before = headers.take(at);
    assert(front.drop_last() =~= before);
    assert(front.last() == headers[at]);
    assert forall|i: int| 0 <= i < before.len() implies is_header_name((#[trigger] before[i]).0)
        && is_header_value(before[i].1) by {
        assert(before[i] == headers[i]);
    }
    lemma_header_problem(before);
    lemma_header_problem_kept(headers, at + 1);
}

/// What is told of a request that cannot be handed to a guest is the first thing
/// that is wrong with it: its method, its target, then its headers.
pub proof fn law_the_first_flaw_is_told(request: HttpRequest, checked: Result<(), Failure>)
    requires
        call_ensures(check_request, (&request,), checked),
        checked is Err,
    ensures
        ({
            let cause = text::optional_text(checked->Err_0.cause);
            &&& (!is_token(request.method@) ==> cause == Some("invalid HTTP method"@))
            &&& (is_token(request.method@) && uri_problem(request.path_and_query@) is Some
                ==> cause == uri_problem(request.path_and_query@))
            &&& (is_token(request.method@) && uri_problem(request.path_and_query@) is None
                ==> cause == header_problem(text::text_pairs(request.headers@)))
        }),
{
}

/// A request of a guest is for a service exactly where it names one, and the path
/// of a request without one is a slash.
pub proof fn law_requests_name_their_service(
    authority: Option<String>,
    path: Option<String>,
    uri: Result<String, OutgoingRefusal>,
)
    requires
        call_ensures(logical_uri, (&authority, &path), uri),
    ensures
        uri is Ok <==> authority is Some,
        uri is Err ==> uri->Err_0 is UriInvalid,
        uri is Ok && path is Some ==> uri->Ok_0@ == "pit://"@ + authority->0@ + path->0@,
        uri is Ok && path is None ==> uri->Ok_0@ == "pit://"@ + authority->0@ + "/"@,
{
}

/// What a signature is checked against is the request itself: its method, its
/// target, its headers as they came, and the digest of its very body.
pub proof fn law_signatures_are_checked_against_the_request(
    request: HttpRequest,
    signed: SignedRequest,
)
    requires
        call_ensures(signed_request, (&request,), signed),
    ensures
        signed.method@ == request.method@,
        signed.path@ == request.path_and_query@,
        signed.headers@.len() == request.headers@.len(),
        forall|i: int|
            0 <= i < request.headers@.len() ==> (#[trigger] signed.headers@[i]).0@
                == request.headers@[i].0@ && signed.headers@[i].1@ == request.headers@[i].1@,
        "sha256:"@ + signed.payload_hash@ == digest::content_identity(request.body@),
{
    let (a, b) = (text::text_pairs(signed.headers@), text::text_pairs(request.headers@));
    assert(a.len() == signed.headers@.len());
    assert(b.len() == request.headers@.len());
    assert forall|i: int| 0 <= i < request.headers@.len() implies (
    #[trigger] signed.headers@[i]).0@ == request.headers@[i].0@ && signed.headers@[i].1@
        == request.headers@[i].1@ by {
        assert(a[i] == (signed.headers@[i].0@, signed.headers@[i].1@));
        assert(b[i] == (request.headers@[i].0@, request.headers@[i].1@));
    }
}

} // verus!

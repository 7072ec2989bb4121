use pit_box::http::{
    admit_request, check_http_half, check_request, conclude_http, incoming_reply, keep_usable_headers,
    logical_uri, outgoing_invocation, read_headers, service_invocation, service_response,
    show_headers, signed_request, socket_allowed, HttpRequest, InvocationContext, InvokeOutcome,
    GuestHttpResponse, OutgoingRefusal, PitUri, ServiceError, ServiceReply, SocketUse, TcpEndpoint,
};
use pit_box::outcome::ControlSignal;
use pit_box::paddock::{
    authorize, paddock_granted, PaddockError, PaddockGrant, PaddockWriterState, StoreAccess,
};
use pit_box::runtime::HttpHalf;

fn request(method: &str, path: &str, headers: &[(&str, &str)]) -> HttpRequest {
    HttpRequest {
        method: method.to_owned(),
        path_and_query: path.to_owned(),
        headers: pairs(headers),
        body: b"hello".to_vec(),
        env: vec![],
        allowed_tcp: vec![],
        source_garage_id: None,
        visited_garages: vec![],
        application_id: None,
        release_id: None,
        paddock_grants: vec![],
        paddock_auth: None,
    }
}

fn pairs(headers: &[(&str, &str)]) -> Vec<(String, String)> {
    headers.iter().map(|(name, value)| ((*name).to_owned(), (*value).to_owned())).collect()
}

fn raw(headers: &[(&str, &[u8])]) -> Vec<(String, Vec<u8>)> {
    headers.iter().map(|(name, value)| ((*name).to_owned(), value.to_vec())).collect()
}

fn context(depth: u16) -> InvocationContext {
    InvocationContext {
        parent_execution_id: Some("0001".to_owned()),
        depth,
        source_garage_id: None,
        visited_garages: vec!["a".to_owned()],
        application_id: None,
        release_id: Some("r".to_owned()),
    }
}

fn target() -> PitUri {
    PitUri { service: "users".to_owned(), path_and_query: "/x".to_owned() }
}

#[test]
fn requests_are_checked() {
    assert!(check_request(&request("GET", "/hello?a=b", &[("Host", "x")])).is_ok());
    for bad in [
        request("", "/", &[]),
        request("GE T", "/", &[]),
        request("GET", "/ space", &[]),
        request("GET", "", &[]),
        request("GET", "/", &[("", "x")]),
        request("GET", "/", &[("na me", "x")]),
        request("GET", "/", &[("name", "a\nb")]),
    ] {
        let failure = check_request(&bad).expect_err("should be refused");
        assert_eq!(failure.message, "invalid HTTP request");
        assert!(failure.cause.is_some());
    }
}

#[test]
fn headers_are_written_with_small_letters() {
    let read = read_headers(&pairs(&[("X-One", "é\t1"), ("two", "")])).expect("valid headers");
    assert_eq!(read, pairs(&[("x-one", "é\t1"), ("two", "")]));
    assert_eq!(
        read_headers(&pairs(&[("ok", "1"), ("a:b", "1"), ("", "\0")])),
        Err("invalid HTTP header name".to_owned())
    );
    assert_eq!(
        read_headers(&pairs(&[("ok", "\u{7f}")])),
        Err("failed to parse header value".to_owned())
    );
    let long = "n".repeat(65_535);
    assert!(read_headers(&vec![(long.clone(), String::new())]).is_ok());
    assert!(read_headers(&vec![(long + "n", String::new())]).is_err());
    let kept = keep_usable_headers(&pairs(&[("A", "1"), ("b d", "2"), ("C", "\r")]));
    assert_eq!(kept, pairs(&[("a", "1")]));
}

#[test]
fn the_signed_parts_come_from_the_request() {
    let signed = signed_request(&request("GET", "/p", &[("host", "h")]));
    assert_eq!(signed.method, "GET");
    assert_eq!(signed.path, "/p");
    assert_eq!(signed.headers, pairs(&[("host", "h")]));
    assert_eq!(
        signed.payload_hash,
        "2cf24dba5fb0a30e26e83b2ac5b9e29e1b161e5c1fa7425e73043362938b9824"
    );
}

#[test]
fn guests_connect_only_where_they_may() {
    let here = TcpEndpoint::V4 { address: 0x7f00_0001, port: 5432 };
    let there = TcpEndpoint::V4 { address: 0x7f00_0001, port: 5433 };
    let wide = TcpEndpoint::V6 { long_address: 1, port: 1, flow: 0, scope: 0 };
    let allowed = vec![here, wide];
    assert!(socket_allowed(&allowed, here, SocketUse::TcpConnect));
    assert!(socket_allowed(&allowed, wide, SocketUse::TcpConnect));
    assert!(!socket_allowed(&allowed, there, SocketUse::TcpConnect));
    assert!(!socket_allowed(&allowed, here, SocketUse::TcpBind));
    assert!(!socket_allowed(&allowed, here, SocketUse::UdpConnect));
    assert!(!socket_allowed(&vec![], here, SocketUse::TcpConnect));
    assert!(here.is_loopback());
    assert!(wide.is_loopback());
    assert!(!TcpEndpoint::V4 { address: 0x8000_0001, port: 1 }.is_loopback());
}

#[test]
fn answers_are_concluded_in_order() {
    let answer = || {
        Ok(GuestHttpResponse {
            status: 201,
            headers: raw(&[("a", b"1"), ("b", b"x\ty")]),
            body: Ok(b"ok".to_vec()),
        })
    };
    let response = conclude_http(Ok(()), answer(), ControlSignal::Clear, false).expect("answered");
    assert_eq!(response.status, 201);
    assert_eq!(response.headers, pairs(&[("a", "1"), ("b", "x\ty")]));
    assert_eq!(response.body, b"ok");
    let failed = |called, answered, signal, memory| {
        conclude_http(called, answered, signal, memory).expect_err("failed").message
    };
    assert_eq!(
        failed(Err("trap".to_owned()), answer(), ControlSignal::Cancelled, true),
        "WASI HTTP incoming handler failed: trap"
    );
    assert_eq!(
        failed(
            Ok(()),
            Err("HTTP guest dropped response output".to_owned()),
            ControlSignal::Clear,
            false
        ),
        "HTTP guest dropped response output"
    );
    let odd = || {
        Ok(GuestHttpResponse {
            status: 200,
            headers: raw(&[("a", b"\xff")]),
            body: Err("cut off".to_owned()),
        })
    };
    let cut = Ok(GuestHttpResponse {
        status: 200,
        headers: raw(&[]),
        body: Err("cut off".to_owned()),
    });
    assert_eq!(failed(Ok(()), cut, ControlSignal::Cancelled, false), "cut off");
    assert_eq!(
        failed(Ok(()), odd(), ControlSignal::Clear, false),
        "failed to convert header to a str"
    );
    assert_eq!(
        failed(Ok(()), answer(), ControlSignal::Cancelled, true),
        "HTTP execution was cancelled"
    );
    assert_eq!(
        failed(Ok(()), answer(), ControlSignal::TimedOut, true),
        "HTTP execution exceeded its timeout"
    );
    assert_eq!(
        failed(Ok(()), answer(), ControlSignal::Clear, true),
        "HTTP execution exceeded its memory limit"
    );
}

#[test]
fn halves_that_cannot_answer_say_so() {
    assert_eq!(
        check_http_half(HttpHalf::Unprepared).expect_err("no engine").message,
        "HTTP engine was not prepared"
    );
    assert_eq!(
        check_http_half(HttpHalf::EngineOnly).expect_err("no component").message,
        "HTTP component was not prepared"
    );
    let bad = request("B AD", "/", &[]);
    let good = request("GET", "/", &[]);
    let said = |half, request| admit_request(half, request).err().map(|failure| failure.message);
    assert_eq!(said(HttpHalf::Unprepared, &bad).as_deref(), Some("HTTP engine was not prepared"));
    assert_eq!(said(HttpHalf::EngineOnly, &bad).as_deref(), Some("invalid HTTP request"));
    assert_eq!(
        said(HttpHalf::EngineOnly, &good).as_deref(),
        Some("HTTP component was not prepared")
    );
    assert_eq!(said(HttpHalf::Resolved, &bad).as_deref(), Some("invalid HTTP request"));
    assert_eq!(said(HttpHalf::Unresolved, &good), None);
    assert!(check_http_half(HttpHalf::Resolved).is_ok());
    assert!(check_http_half(HttpHalf::Unresolved).is_ok());
}

#[test]
fn outgoing_requests_become_invocations() {
    assert_eq!(logical_uri(&None, &None), Err(OutgoingRefusal::UriInvalid));
    assert_eq!(
        logical_uri(&Some("users".to_owned()), &None),
        Ok("pit://users/".to_owned())
    );
    assert_eq!(
        logical_uri(&Some("users".to_owned()), &Some("/a?b".to_owned())),
        Ok("pit://users/a?b".to_owned())
    );
    let headers = raw(&[("accept", b"*/*")]);
    let sent = outgoing_invocation(
        Ok(target()),
        true,
        "GET".to_owned(),
        &headers,
        Ok(b"x".to_vec()),
        &context(3),
    )
    .expect("allowed");
    assert_eq!(sent.target.service, "users");
    assert_eq!(sent.headers, pairs(&[("accept", "*/*")]));
    assert_eq!(sent.context.depth, 4);
    assert_eq!(sent.context.release_id.as_deref(), Some("r"));
    assert_eq!(sent.context.visited_garages, vec!["a"]);
    let deepest = context(u16::MAX).child();
    assert_eq!(deepest.depth, u16::MAX);
    let refuse = |target, enabled, headers: &Vec<(String, Vec<u8>)>, body| {
        outgoing_invocation(target, enabled, "GET".to_owned(), headers, body, &context(0))
            .expect_err("denied")
    };
    let denied = OutgoingRefusal::Denied;
    assert_eq!(refuse(Err("no".to_owned()), true, &headers, Ok(vec![])), denied);
    assert_eq!(refuse(Ok(target()), false, &headers, Ok(vec![])), denied);
    assert_eq!(refuse(Ok(target()), true, &raw(&[("a", b"\x00")]), Ok(vec![])), denied);
    assert_eq!(refuse(Ok(target()), true, &headers, Err("cut".to_owned())), denied);
}

#[test]
fn replies_carry_their_length_and_one_header_of_each_name() {
    let reply = ServiceReply {
        status: 200,
        headers: raw(&[("a", b"1"), ("b", b"2"), ("a", b"3")]),
        body: b"hello world".to_vec(),
    };
    let answer = incoming_reply(Ok(reply)).expect("replied");
    assert_eq!(
        answer.headers,
        raw(&[("content-length", b"11"), ("a", b"1"), ("b", b"2")])
    );
    assert_eq!(answer.body, b"hello world");
    assert!(matches!(
        incoming_reply(Err("down".to_owned())),
        Err(OutgoingRefusal::Denied)
    ));
}

#[test]
fn named_invocations_say_what_is_wrong() {
    let call = |target, enabled, method, headers: &Vec<(String, String)>| {
        service_invocation(target, enabled, method, headers, b"b".to_vec(), &context(0))
    };
    let fine = pairs(&[("X-A", "1")]);
    let sent = call(Ok(target()), true, "POST", &fine).expect("allowed");
    assert_eq!(sent.method, "POST");
    assert_eq!(sent.headers, pairs(&[("x-a", "1")]));
    assert_eq!(sent.context.depth, 1);
    assert!(matches!(
        call(Err("odd".to_owned()), false, "", &fine),
        Err(ServiceError::InvalidUri(error)) if error == "odd"
    ));
    assert!(matches!(
        call(Ok(target()), false, "", &fine),
        Err(ServiceError::Unavailable(error)) if error == "service invocation is not enabled"
    ));
    assert!(matches!(
        call(Ok(target()), true, "a b", &fine),
        Err(ServiceError::Unavailable(error)) if error == "invalid method: invalid HTTP method"
    ));
    assert!(matches!(
        call(Ok(target()), true, "GET", &pairs(&[("a", "\n")])),
        Err(ServiceError::Unavailable(error))
            if error == "invalid header: failed to parse header value"
    ));
    let response = service_response(InvokeOutcome::Replied(ServiceReply {
        status: 404,
        headers: raw(&[("a", b"1"), ("b", b"\xff")]),
        body: b"no".to_vec(),
    }))
    .expect("replied");
    assert_eq!(response.status, 404);
    assert_eq!(response.headers, pairs(&[("a", "1"), ("b", "")]));
    assert_eq!(show_headers(&raw(&[("c", b"~ ")])), pairs(&[("c", "~ ")]));
    assert!(matches!(
        service_response(InvokeOutcome::Panicked),
        Err(ServiceError::Unavailable(error)) if error == "service invocation thread panicked"
    ));
    assert!(matches!(
        service_response(InvokeOutcome::Failed("down".to_owned())),
        Err(ServiceError::Unavailable(error)) if error == "down"
    ));
}

#[test]
fn objects_are_only_for_those_who_may() {
    let grants = vec![
        PaddockGrant {
            namespace: "logs".to_owned(),
            read: true,
            write: false,
            delete: false,
            list: true,
        },
        PaddockGrant::full("data".to_owned()),
    ];
    assert!(paddock_granted(&grants, "logs", StoreAccess::Read));
    assert!(!paddock_granted(&grants, "logs", StoreAccess::Write));
    assert!(paddock_granted(&grants, "data", StoreAccess::Delete));
    assert!(!paddock_granted(&grants, "other", StoreAccess::Read));
    let name = |s: &str| Ok::<String, String>(s.to_owned());
    let asked = authorize(&grants, StoreAccess::Write, name("data"), Some(name("k")), true);
    assert_eq!(asked.ok(), Some(("data".to_owned(), Some("k".to_owned()))));
    let asked = authorize(&grants, StoreAccess::List, name("logs"), None, true);
    assert_eq!(asked.ok(), Some(("logs".to_owned(), None)));
    assert!(matches!(
        authorize(&grants, StoreAccess::Delete, name("logs"), Some(name("k")), false),
        Err(PaddockError::Denied(error)) if error == "delete access denied for namespace logs"
    ));
    assert!(matches!(
        authorize(&grants, StoreAccess::Read, name("logs"), Some(name("k")), false),
        Err(PaddockError::Unavailable(error)) if error == "Paddock capability is not configured"
    ));
    assert!(matches!(
        authorize(&grants, StoreAccess::Read, Err("bad name".to_owned()), None, true),
        Err(PaddockError::Unavailable(error)) if error == "bad name"
    ));
    assert!(matches!(
        authorize(&grants, StoreAccess::Read, name("x"), Some(Err("bad key".to_owned())), true),
        Err(PaddockError::Unavailable(error)) if error == "bad key"
    ));
}

#[test]
fn a_writer_is_finalized_once() {
    let mut state = PaddockWriterState::new(vec![1]);
    state.writing().expect("open").push(2);
    assert_eq!(state.commit().ok(), Some(vec![1, 2]));
    assert!(matches!(
        state.writing(),
        Err(PaddockError::Conflict(error)) if error == "writer finalized"
    ));
    assert!(matches!(state.commit(), Err(PaddockError::Conflict(_))));
    assert_eq!(state.abort(), None);
    let mut state = PaddockWriterState::new(7);
    assert_eq!(state.abort(), Some(7));
    assert!(matches!(state.commit(), Err(PaddockError::Conflict(_))));
}

use pit_box::cache::CompiledCacheSource;
use pit_box::clock::Span;
use pit_box::garage::{
    accept_answer, acquisition_source, already_hot, check_listener, lane_report, local_digests,
    preparation_budget, route, trim_endpoint, ArtifactFile, DispatchOutcome, Garage,
    GarageCounters, GarageRoute, HttpDispatchResult, HttpPayload, LogicalInvocationResponse,
    RemoteExecutionError, RemoteExecutionRequest, RuntimeContract, WarmupReport, WarmupTable,
    WarmupTurn,
};
use pit_box::http::{
    HttpExecutionTimings, HttpResponse, InvocationContext, PitUri, ServiceInvocation, TcpEndpoint,
};
use pit_box::preparation::{PreparationReport, ReadinessState};
use pit_box::scheduler::{ExecutionId, LaneId, PitScheduler};

fn garage() -> Garage {
    Garage { id: "garage-a".to_owned(), protocol_version: 3, max_invocation_depth: 5 }
}

fn payload() -> HttpPayload {
    HttpPayload {
        method: "GET".to_owned(),
        path_and_query: "/".to_owned(),
        headers: vec![("host".to_owned(), "x".to_owned())],
        body: b"in".to_vec(),
    }
}

fn request() -> RemoteExecutionRequest {
    RemoteExecutionRequest {
        protocol_version: 3,
        execution_id: "e-1".to_owned(),
        runtime_contract: RuntimeContract::WasiHttpProxy,
        artifact_digest: "sha256:aa".to_owned(),
        source_paddock: None,
        invocation_depth: 16,
        visited_garages: vec!["garage-b".to_owned()],
        application_id: Some("app".to_owned()),
        release_id: None,
        payload: payload(),
    }
}

fn refused(request: &RemoteExecutionRequest, permit: bool) -> (RemoteExecutionError, String) {
    let response = garage().screen(request, permit).expect_err("should be refused");
    assert!(!response.accepted);
    assert!(!response.started);
    assert_eq!(response.execution_id, "e-1");
    assert_eq!(response.garage_id, "garage-a");
    assert_eq!(response.protocol_version, 3);
    (response.error.expect("an error"), response.error_message.expect("a message"))
}

#[test]
fn refusals_come_in_order() {
    assert!(garage().screen(&request(), true).is_ok());
    let overloaded = (
        RemoteExecutionError::Overloaded,
        "Garage admission limit exceeded".to_owned(),
    );
    assert_eq!(refused(&request(), false), overloaded);
    let mut asked = request();
    asked.invocation_depth = 17;
    let deep = (
        RemoteExecutionError::InvocationCycle,
        "maximum invocation depth exceeded".to_owned(),
    );
    assert_eq!(refused(&asked, false), deep);
    asked.visited_garages.push("garage-a".to_owned());
    let cycle = (
        RemoteExecutionError::InvocationCycle,
        "Garage already appears in invocation path".to_owned(),
    );
    assert_eq!(refused(&asked, false), cycle);
    asked.runtime_contract = RuntimeContract::Other("wasi:cli/command".to_owned());
    let runtime = (
        RemoteExecutionError::UnsupportedRuntime,
        "Garage currently executes wasi:http/proxy remotely".to_owned(),
    );
    assert_eq!(refused(&asked, false), runtime);
    asked.protocol_version = 2;
    let protocol = (
        RemoteExecutionError::UnsupportedProtocol,
        "unsupported remote protocol".to_owned(),
    );
    assert_eq!(refused(&asked, false), protocol);
    let response = garage().unavailable("e-1", "gone");
    assert_eq!(response.error, Some(RemoteExecutionError::ArtifactUnavailable));
    assert_eq!(response.error_message.as_deref(), Some("gone"));
}

#[test]
fn what_was_handed_on_does_not_come_back() {
    let asked = request();
    let guest = garage().guest_request(payload(), &asked.visited_garages, None, None, vec![]);
    assert_eq!(guest.visited_garages, vec!["garage-b", "garage-a"]);
    assert_eq!(guest.source_garage_id.as_deref(), Some("garage-a"));
    assert!(guest.env.is_empty());
    assert!(guest.allowed_tcp.is_empty());
    let mut again = request();
    again.visited_garages = guest.visited_garages;
    again.visited_garages.push("garage-c".to_owned());
    assert_eq!(refused(&again, true).0, RemoteExecutionError::InvocationCycle);
}

fn dispatched(response: Option<HttpResponse>, error: Option<&str>) -> HttpDispatchResult {
    HttpDispatchResult {
        execution_id: ExecutionId(41),
        lane_id: LaneId(2),
        response,
        error: error.map(str::to_owned),
        prepared_lookup: Span::from_nanos(4_999),
        queued_for: Span::from_nanos(5_000),
        scheduling_gap: Span::from_nanos(6_000),
        guest_started_after_request: Span::from_nanos(7_000),
        duration: Span::from_millis(8),
        runtime_timings: HttpExecutionTimings::default(),
    }
}

#[test]
fn answers_report_what_happened() {
    let warmup = WarmupReport {
        preparation: PreparationReport {
            compile_duration: Span::from_nanos(2_000),
            restore_duration: Span::from_nanos(3_000),
            ..PreparationReport::default()
        },
        duration: Span::from_nanos(1_000),
    };
    let total = Span::from_millis(9);
    let answer = HttpResponse {
        status: 200,
        headers: vec![("a".to_owned(), "b".to_owned())],
        body: b"out".to_vec(),
    };
    let outcome = DispatchOutcome::Finished(dispatched(Some(answer), None));
    let response = garage().respond("e-1", outcome, &warmup, total);
    assert!(response.accepted && response.started);
    assert_eq!(response.execution_id, "0042");
    assert_eq!(response.lane_id, Some(2));
    assert_eq!(response.guest_status, Some(200));
    assert_eq!(response.body, b"out");
    assert_eq!(response.error, None);
    let timing = response.timing.expect("timing");
    assert_eq!(timing.preparation_us, 1);
    assert_eq!(timing.compile_us, 2);
    assert_eq!(timing.restore_us, 3);
    assert_eq!(timing.prepared_lookup_us, 4);
    assert_eq!(timing.scheduler_queue_us, 5);
    assert_eq!(timing.guest_started_us, 7);
    assert_eq!(timing.guest_execution_us, 8_000);
    assert_eq!(timing.total_us, 9_000);

    let outcome = DispatchOutcome::Finished(dispatched(
        None,
        Some("HTTP execution exceeded its timeout"),
    ));
    let response = garage().respond("e-1", outcome, &warmup, total);
    assert_eq!(response.error, Some(RemoteExecutionError::Timeout));
    let outcome = DispatchOutcome::Finished(dispatched(None, Some("time out")));
    let response = garage().respond("e-1", outcome, &warmup, total);
    assert_eq!(response.error, Some(RemoteExecutionError::GuestFailure));
    let outcome = DispatchOutcome::Finished(dispatched(None, None));
    let response = garage().respond("e-1", outcome, &warmup, total);
    assert_eq!(response.error, Some(RemoteExecutionError::GuestFailure));
    let outcome = DispatchOutcome::Failed("unknown key".to_owned());
    let response = garage().respond("e-1", outcome, &warmup, total);
    assert_eq!(response.error, Some(RemoteExecutionError::GuestFailure));
    assert_eq!(response.execution_id, "e-1");
    assert!(response.started && response.timing.is_none());
    let outcome = DispatchOutcome::Lost("panicked".to_owned());
    let response = garage().respond("e-1", outcome, &warmup, total);
    assert_eq!(response.error, Some(RemoteExecutionError::Internal));
}

fn invocation(depth: u16, headers: &[(&str, &str)]) -> ServiceInvocation {
    ServiceInvocation {
        target: PitUri { service: "users".to_owned(), path_and_query: "/list".to_owned() },
        method: "GET".to_owned(),
        headers: headers
            .iter()
            .map(|(name, value)| ((*name).to_owned(), (*value).to_owned()))
            .collect(),
        body: vec![],
        context: InvocationContext {
            parent_execution_id: None,
            depth,
            source_garage_id: None,
            visited_garages: vec!["garage-b".to_owned()],
            application_id: None,
            release_id: None,
        },
    }
}

#[test]
fn nested_invocations_name_a_host_and_stay_shallow() {
    let asked = garage().logical_invocation(invocation(5, &[("a", "1")]), "9").expect("allowed");
    assert_eq!(asked.request_id, "nested-9");
    assert_eq!(asked.target_service, "users");
    assert_eq!(asked.path_and_query, "/list");
    assert_eq!(
        asked.headers,
        vec![
            ("a".to_owned(), "1".to_owned()),
            ("host".to_owned(), "users".to_owned())
        ]
    );
    assert_eq!(asked.source_garage_id.as_deref(), Some("garage-a"));
    let asked = garage().logical_invocation(invocation(0, &[("HOST", "h")]), "9").expect("allowed");
    assert_eq!(asked.headers, vec![("HOST".to_owned(), "h".to_owned())]);
    let odd = [("host", "h"), ("plain", "a\tb ~"), ("accent", "caf\u{e9}"), ("del", "\u{7f}")];
    let asked = garage().logical_invocation(invocation(0, &odd), "9").expect("allowed");
    let values: Vec<&str> = asked.headers.iter().map(|(_, value)| value.as_str()).collect();
    assert_eq!(values, vec!["h", "a\tb ~", "", ""]);
    let failure = garage().logical_invocation(invocation(6, &[]), "9").expect_err("too deep");
    assert_eq!(failure.message, "maximum invocation depth 5 exceeded");
}

#[test]
fn answers_of_others_are_checked() {
    let answer = |accepted, started, status, message: Option<&str>| LogicalInvocationResponse {
        accepted,
        started,
        guest_status: status,
        headers: vec![
            ("A".to_owned(), "1".to_owned()),
            ("b c".to_owned(), "2".to_owned()),
        ],
        body: b"x".to_vec(),
        error_message: message.map(str::to_owned),
        child_execution_id: Some("c".to_owned()),
    };
    let taken = accept_answer(answer(true, true, Some(599), None)).expect("fine");
    assert_eq!(taken.status, 599);
    assert_eq!(taken.headers, vec![("a".to_owned(), "1".to_owned())]);
    assert_eq!(taken.child_execution_id.as_deref(), Some("c"));
    let refused = |response| accept_answer(response).expect_err("refused").message;
    assert_eq!(
        refused(answer(false, true, Some(200), Some("busy"))),
        "nested service invocation rejected: busy"
    );
    assert_eq!(
        refused(answer(true, false, Some(200), None)),
        "nested service invocation rejected: unknown error"
    );
    assert_eq!(
        refused(answer(true, true, None, None)),
        "nested invocation returned no guest status"
    );
    assert_eq!(refused(answer(true, true, Some(99), None)), "invalid status code");
    assert_eq!(refused(answer(true, true, Some(1000), None)), "invalid status code");
}

#[test]
fn one_leads_and_the_others_wait() {
    let mut table = WarmupTable::new();
    let report = already_hot(Span::from_millis(1));
    assert_eq!(table.join("a"), WarmupTurn::Lead);
    assert_eq!(table.join("a"), WarmupTurn::Wait);
    assert_eq!(table.join("b"), WarmupTurn::Lead);
    table.complete("a", Err("broken".to_owned()));
    assert_eq!(table.join("b"), WarmupTurn::Wait);
    assert_eq!(table.join("a"), WarmupTurn::Lead);
    table.complete("a", Ok(report));
    assert_eq!(table.join("a"), WarmupTurn::Ready(report));
    table.complete("b", Ok(report));
    assert_eq!(table.join("b"), WarmupTurn::Ready(report));
}

#[test]
fn warmups_are_counted() {
    assert_eq!(already_hot(Span::zero()).preparation.readiness, ReadinessState::Hot);
    let mut counters = GarageCounters::new();
    counters.acquired();
    counters.preparing();
    counters.executing();
    counters.prepared(&PreparationReport::default());
    counters.prepared(&PreparationReport {
        source: CompiledCacheSource::WarmRestored,
        cache_publication_duration: Span::from_nanos(1),
        ..PreparationReport::default()
    });
    assert_eq!(
        counters,
        GarageCounters {
            remote_acquisitions: 1,
            preparations: 1,
            compilations: 1,
            warm_restores: 1,
            cache_publications: 1,
            executions: 1,
        }
    );
    let source = acquisition_source("sha256:aa", &None, "local", true);
    assert_eq!(source.ok().as_deref(), Some("local"));
    let source = acquisition_source("sha256:aa", &Some("far".to_owned()), "local", true);
    assert_eq!(source.ok().as_deref(), Some("far"));
    let failure = acquisition_source("sha256:aa", &None, "local", false).expect_err("no store");
    assert_eq!(
        failure.message,
        "artifact sha256:aa is not local and no Paddock is configured"
    );
}

#[test]
fn garages_describe_themselves() {
    let mut scheduler = PitScheduler::new(2).expect("two lanes are valid");
    scheduler.request_lane();
    scheduler.request_lane();
    scheduler.assign_lane();
    let lanes = lane_report(&scheduler.shared_snapshot());
    assert_eq!(
        (lanes.total_lanes, lanes.active_lanes, lanes.free_lanes, lanes.queue_depth),
        (2, 1, 1, 1)
    );
    let file = |stem: Option<&str>, extension: Option<&str>| ArtifactFile {
        stem: stem.map(str::to_owned),
        extension: extension.map(str::to_owned),
        is_digest: stem != Some("notes"),
    };
    let files = vec![
        file(Some("notes"), Some("wasm")),
        file(Some("bb"), Some("wasm")),
        file(Some("aa"), Some("wasm")),
        file(Some("bb"), Some("wasm")),
        file(Some("cc"), Some("json")),
        file(None, Some("wasm")),
        file(Some("dd"), None),
    ];
    assert_eq!(local_digests(&files), vec!["sha256:aa", "sha256:bb"]);
    assert_eq!(route("POST", "/v1/execute"), GarageRoute::Execute);
    assert_eq!(route("GET", "/v1/runtime"), GarageRoute::Runtime);
    assert_eq!(route("GET", "/v1/execute"), GarageRoute::Unknown);
    assert_eq!(trim_endpoint("http://x//"), "http://x");
    assert_eq!(trim_endpoint("http://x"), "http://x");
    assert_eq!(trim_endpoint("//"), "");
    assert_eq!(preparation_budget(0), 1);
    assert_eq!(preparation_budget(4), 4);
    assert!(check_listener(&TcpEndpoint::V4 { address: 0x7f00_0001, port: 1 }).is_ok());
    let failure = check_listener(&TcpEndpoint::V4 { address: 0, port: 1 }).expect_err("open");
    assert_eq!(failure.message, "Garage listener must be loopback-only in v0.9");
}

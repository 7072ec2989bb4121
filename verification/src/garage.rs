//! A garage: what it executes for others, and what it asks of others.

use http::StatusCode;
use vstd::prelude::*;

use crate::cache::CompiledCacheSource;
use crate::clock::Span;
use crate::failure::Failure;
use crate::http::{
    header_text, keep_usable_headers, HttpExecutionTimings, HttpRequest, HttpResponse, ServiceInvocation,
    TcpEndpoint,
};
use crate::names::distinct_in_order;
use crate::paddock::PaddockGrant;
use crate::preparation::{PreparationReport, ReadinessState};
use crate::scheduler::{ExecutionId, LaneId, SchedulerSnapshot};
use crate::text::{
    chars_of, concat2, concat3, contains_text, copy_strings, decimal_string, equal_ignoring_case,
    includes, same, string_of,
};
use crate::{http as web, names, preparation, text};

verus! {

/// Why a garage did not execute a request, or what became of it.
#[derive(Debug, Clone, Copy, PartialEq, Eq, Structural)]
pub enum RemoteExecutionError {
    UnsupportedProtocol,
    UnsupportedRuntime,
    InvocationCycle,
    Overloaded,
    ArtifactUnavailable,
    GuestFailure,
    Timeout,
    Internal,
}

/// What an artifact is executed as.
#[derive(Debug)]
pub enum RuntimeContract {
    WasiHttpProxy,
    Other(String),
}

/// The HTTP request in a remote execution.
#[derive(Debug)]
pub struct HttpPayload {
    pub method: String,
    pub path_and_query: String,
    pub headers: Vec<(String, String)>,
    pub body: Vec<u8>,
}

/// What a garage is asked to execute.
#[derive(Debug)]
pub struct RemoteExecutionRequest {
    pub protocol_version: u32,
    pub execution_id: String,
    pub runtime_contract: RuntimeContract,
    pub artifact_digest: String,
    pub source_paddock: Option<String>,
    pub invocation_depth: u16,
    pub visited_garages: Vec<String>,
    pub application_id: Option<String>,
    pub release_id: Option<String>,
    pub payload: HttpPayload,
}

/// How long the stages of a remote execution took, in microseconds.
#[derive(Debug, Clone, Copy, PartialEq, Eq, Structural)]
pub struct RemoteExecutionTiming {
    pub preparation_us: u128,
    pub compile_us: u128,
    pub restore_us: u128,
    pub prepared_lookup_us: u128,
    pub scheduler_queue_us: u128,
    pub guest_started_us: u128,
    pub guest_execution_us: u128,
    pub total_us: u128,
}

/// What a garage answers.
#[derive(Debug)]
pub struct RemoteExecutionResponse {
    pub protocol_version: u32,
    pub accepted: bool,
    pub started: bool,
    pub execution_id: String,
    pub garage_id: String,
    pub lane_id: Option<usize>,
    pub guest_status: Option<u16>,
    pub headers: Vec<(String, String)>,
    pub body: Vec<u8>,
    pub timing: Option<RemoteExecutionTiming>,
    pub error: Option<RemoteExecutionError>,
    pub error_message: Option<String>,
}

/// How an artifact was made ready, and how long that took.
#[derive(Debug, Clone, Copy, PartialEq, Eq, Structural)]
pub struct WarmupReport {
    pub preparation: PreparationReport,
    pub duration: Span,
}

/// What the dispatcher says of an HTTP execution.
#[derive(Debug)]
pub struct HttpDispatchResult {
    pub execution_id: ExecutionId,
    pub lane_id: LaneId,
    pub response: Option<HttpResponse>,
    pub error: Option<String>,
    pub prepared_lookup: Span,
    pub queued_for: Span,
    pub scheduling_gap: Span,
    pub guest_started_after_request: Span,
    pub duration: Span,
    pub runtime_timings: HttpExecutionTimings,
}

/// What came of handing a request to the dispatcher.
#[derive(Debug)]
pub enum DispatchOutcome {
    Finished(HttpDispatchResult),
    /// The dispatcher refused it.
    Failed(String),
    /// The thread that ran it did not come back.
    Lost(String),
}

/// How deep an invocation that a garage executes may be.
pub const MAX_REMOTE_DEPTH: u16 = 16;

/// A garage: its name, the protocol that it speaks, and how deep an invocation
/// that it makes may be.
#[derive(Debug)]
pub struct Garage {
    pub id: String,
    pub protocol_version: u32,
    pub max_invocation_depth: u16,
}

/// Why a garage refuses a request before it does anything for it.
pub open spec fn refusal(
    garage: Garage,
    request: RemoteExecutionRequest,
    has_permit: bool,
) -> Option<(RemoteExecutionError, Seq<char>)> {
    if request.protocol_version != garage.protocol_version {
        Some((RemoteExecutionError::UnsupportedProtocol, "unsupported remote protocol"@))
    } else if !(request.runtime_contract is WasiHttpProxy) {
        Some(
            (
                RemoteExecutionError::UnsupportedRuntime,
                "Garage currently executes wasi:http/proxy remotely"@,
            ),
        )
    } else if text::texts(request.visited_garages@).contains(garage.id@) {
        Some(
            (
                RemoteExecutionError::InvocationCycle,
                "Garage already appears in invocation path"@,
            ),
        )
    } else if request.invocation_depth > MAX_REMOTE_DEPTH {
        Some((RemoteExecutionError::InvocationCycle, "maximum invocation depth exceeded"@))
    } else if !has_permit {
        Some((RemoteExecutionError::Overloaded, "Garage admission limit exceeded"@))
    } else {
        None
    }
}

/// Whether an answer has nothing in it but who answers, which request, and an
/// error.
pub open spec fn only_tells(
    response: RemoteExecutionResponse,
    garage: Garage,
    execution_id: Seq<char>,
    error: RemoteExecutionError,
    message: Seq<char>,
) -> bool {
    &&& response.protocol_version == garage.protocol_version
    &&& response.garage_id@ == garage.id@
    &&& response.execution_id@ == execution_id
    &&& response.lane_id is None
    &&& response.guest_status is None
    &&& response.headers@.len() == 0
    &&& response.body@.len() == 0
    &&& response.timing is None
    &&& response.error == Some(error)
    &&& text::optional_text(response.error_message) == Some(message)
}

/// An answer to a request that was not started.
fn failure(
    garage: &Garage,
    execution_id: &str,
    error: RemoteExecutionError,
    message: &str,
) -> (response: RemoteExecutionResponse)
    ensures
        only_tells(response, *garage, execution_id@, error, message@),
        !response.accepted,
        !response.started,
{
    RemoteExecutionResponse {
        protocol_version: garage.protocol_version,
        accepted: false,
        started: false,
        execution_id: execution_id.to_owned(),
        garage_id: garage.id.clone(),
        lane_id: None,
        guest_status: None,
        headers: Vec::new(),
        body: Vec::new(),
        timing: None,
        error: Some(error),
        error_message: Some(message.to_owned()),
    }
}

/// An answer to a request that was started and failed.
fn failure_started(
    garage: &Garage,
    execution_id: &str,
    error: RemoteExecutionError,
    message: &str,
) -> (response: RemoteExecutionResponse)
    ensures
        only_tells(response, *garage, execution_id@, error, message@),
        response.accepted,
        response.started,
{
    let mut response = failure(garage, execution_id, error, message);
    response.accepted = true;
    response.started = true;
    response
}

/// The error of an execution that gave no response: a timeout, where its error
/// speaks of one.
pub open spec fn unanswered(error: Option<Seq<char>>) -> RemoteExecutionError {
    match error {
        Some(error) => if text::includes_text(error, "timeout"@) {
            RemoteExecutionError::Timeout
        } else {
            RemoteExecutionError::GuestFailure
        },
        None => RemoteExecutionError::GuestFailure,
    }
}

/// How long the stages took.
pub open spec fn timing_of(
    warmup: WarmupReport,
    result: HttpDispatchResult,
    total: Span,
) -> RemoteExecutionTiming {
    RemoteExecutionTiming {
        preparation_us: warmup.duration.nanos / 1000,
        compile_us: warmup.preparation.compile_duration.nanos / 1000,
        restore_us: warmup.preparation.restore_duration.nanos / 1000,
        prepared_lookup_us: result.prepared_lookup.nanos / 1000,
        scheduler_queue_us: result.queued_for.nanos / 1000,
        guest_started_us: result.guest_started_after_request.nanos / 1000,
        guest_execution_us: result.duration.nanos / 1000,
        total_us: total.nanos / 1000,
    }
}

/// Whether an answer reports an execution that the dispatcher finished.
pub open spec fn reports_dispatch(
    response: RemoteExecutionResponse,
    garage: Garage,
    warmup: WarmupReport,
    result: HttpDispatchResult,
    total: Span,
) -> bool {
    &&& response.protocol_version == garage.protocol_version
    &&& response.garage_id@ == garage.id@
    &&& response.accepted
    &&& response.started
    &&& response.execution_id@ == text::zero_padded(
        text::decimal((result.execution_id.0 + 1) as nat),
        4,
    )
    &&& response.lane_id == Some(result.lane_id.0)
    &&& response.timing == Some(timing_of(warmup, result, total))
    &&& match result.response {
        Some(answer) => {
            &&& response.guest_status == Some(answer.status)
            &&& response.headers == answer.headers
            &&& response.body == answer.body
            &&& response.error is None
            &&& response.error_message is None
        },
        None => {
            &&& response.guest_status is None
            &&& response.headers@.len() == 0
            &&& response.body@.len() == 0
            &&& response.error == Some(unanswered(text::optional_text(result.error)))
            &&& response.error_message == result.error
        },
    }
}

impl Garage {
    /// Refuses what the garage does not execute: another protocol or runtime,
    /// an invocation that has been here already or is too deep, and what it has
    /// no room for.
    pub fn screen(&self, request: &RemoteExecutionRequest, has_permit: bool) -> (admitted: Result<
        (),
        RemoteExecutionResponse,
    >)
        ensures
            match refusal(*self, *request, has_permit) {
                Some((error, message)) => admitted matches Err(response) && only_tells(
                    response,
                    *self,
                    request.execution_id@,
                    error,
                    message,
                ) && !response.accepted && !response.started,
                None => admitted is Ok,
            },
    {
        let id = request.execution_id.as_str();
        if request.protocol_version != self.protocol_version {
            return Err(
                failure(
                    self,
                    id,
                    RemoteExecutionError::UnsupportedProtocol,
                    "unsupported remote protocol",
                ),
            );
        }
        let is_http = match request.runtime_contract {
            RuntimeContract::WasiHttpProxy => true,
            RuntimeContract::Other(_) => false,
        };
        if !is_http {
            return Err(
                failure(
                    self,
                    id,
                    RemoteExecutionError::UnsupportedRuntime,
                    "Garage currently executes wasi:http/proxy remotely",
                ),
            );
        }
        if contains_text(&request.visited_garages, self.id.as_str()) {
            return Err(
                failure(
                    self,
                    id,
                    RemoteExecutionError::InvocationCycle,
                    "Garage already appears in invocation path",
                ),
            );
        }
        if request.invocation_depth > MAX_REMOTE_DEPTH {
            return Err(
                failure(
                    self,
                    id,
                    RemoteExecutionError::InvocationCycle,
                    "maximum invocation depth exceeded",
                ),
            );
        }
        if !has_permit {
            return Err(
                failure(
                    self,
                    id,
                    RemoteExecutionError::Overloaded,
                    "Garage admission limit exceeded",
                ),
            );
        }
        Ok(())
    }

    /// The answer where the artifact could not be made ready.
    pub fn unavailable(&self, execution_id: &str, error: &str) -> (response: RemoteExecutionResponse)
        ensures
            only_tells(
                response,
                *self,
                execution_id@,
                RemoteExecutionError::ArtifactUnavailable,
                error@,
            ),
            !response.accepted,
            !response.started,
    {
        failure(self, execution_id, RemoteExecutionError::ArtifactUnavailable, error)
    }

    /// The request that the guest is asked. The garage adds itself to those that
    /// the invocation has been through; the guest gets no environment and may
    /// connect nowhere.
    pub fn guest_request(
        &self,
        payload: HttpPayload,
        visited_garages: &Vec<String>,
        application_id: Option<String>,
        release_id: Option<String>,
        paddock_grants: Vec<PaddockGrant>,
    ) -> (request: HttpRequest)
        ensures
            request.method == payload.method,
            request.path_and_query == payload.path_and_query,
            request.headers == payload.headers,
            request.body == payload.body,
            request.env@.len() == 0,
            request.allowed_tcp@.len() == 0,
            text::optional_text(request.source_garage_id) == Some(self.id@),
            text::texts(request.visited_garages@) == text::texts(visited_garages@).push(self.id@),
            request.application_id == application_id,
            request.release_id == release_id,
            request.paddock_grants == paddock_grants,
            request.paddock_auth is None,
    {
        let mut visited = copy_strings(visited_garages);
        let ghost before = visited@;
        visited.push(self.id.clone());
        proof {
            assert(text::texts(visited@) =~= text::texts(before).push(self.id@));
        }
        HttpRequest {
            method: payload.method,
            path_and_query: payload.path_and_query,
            headers: payload.headers,
            body: payload.body,
            env: Vec::new(),
            allowed_tcp: Vec::new(),
            source_garage_id: Some(self.id.clone()),
            visited_garages: visited,
            application_id,
            release_id,
            paddock_grants,
            paddock_auth: None,
        }
    }

    /// The answer to a request that was handed to the dispatcher.
    pub fn respond(
        &self,
        execution_id: &str,
        outcome: DispatchOutcome,
        warmup: &WarmupReport,
        total: Span,
    ) -> (response: RemoteExecutionResponse)
        requires
            outcome matches DispatchOutcome::Finished(result) ==> result.execution_id.0 < u64::MAX,
        ensures
            match outcome {
                DispatchOutcome::Finished(result) => reports_dispatch(
                    response,
                    *self,
                    *warmup,
                    result,
                    total,
                ),
                DispatchOutcome::Failed(error) => response.accepted && response.started
                    && only_tells(
                    response,
                    *self,
                    execution_id@,
                    RemoteExecutionError::GuestFailure,
                    error@,
                ),
                DispatchOutcome::Lost(error) => response.accepted && response.started
                    && only_tells(
                    response,
                    *self,
                    execution_id@,
                    RemoteExecutionError::Internal,
                    error@,
                ),
            },
    {
        let result = match outcome {
            DispatchOutcome::Finished(result) => result,
            DispatchOutcome::Failed(error) => {
                return failure_started(
                    self,
                    execution_id,
                    RemoteExecutionError::GuestFailure,
                    error.as_str(),
                );
            },
            DispatchOutcome::Lost(error) => {
                return failure_started(
                    self,
                    execution_id,
                    RemoteExecutionError::Internal,
                    error.as_str(),
                );
            },
        };
        let timing = RemoteExecutionTiming {
            preparation_us: warmup.duration.as_micros(),
            compile_us: warmup.preparation.compile_duration.as_micros(),
            restore_us: warmup.preparation.restore_duration.as_micros(),
            prepared_lookup_us: result.prepared_lookup.as_micros(),
            scheduler_queue_us: result.queued_for.as_micros(),
            guest_started_us: result.guest_started_after_request.as_micros(),
            guest_execution_us: result.duration.as_micros(),
            total_us: total.as_micros(),
        };
        let execution_id = result.execution_id.label();
        let lane_id = Some(result.lane_id.0);
        match result.response {
            Some(answer) => RemoteExecutionResponse {
                protocol_version: self.protocol_version,
                accepted: true,
                started: true,
                execution_id,
                garage_id: self.id.clone(),
                lane_id,
                guest_status: Some(answer.status),
                headers: answer.headers,
                body: answer.body,
                timing: Some(timing),
                error: None,
                error_message: None,
            },
            None => {
                let timed_out = match &result.error {
                    Some(error) => includes(error.as_str(), "timeout"),
                    None => false,
                };
                RemoteExecutionResponse {
                    protocol_version: self.protocol_version,
                    accepted: true,
                    started: true,
                    execution_id,
                    garage_id: self.id.clone(),
                    lane_id,
                    guest_status: None,
                    headers: Vec::new(),
                    body: Vec::new(),
                    timing: Some(timing),
                    error: Some(
                        if timed_out {
                            RemoteExecutionError::Timeout
                        } else {
                            RemoteExecutionError::GuestFailure
                        },
                    ),
                    error_message: result.error,
                }
            },
        }
    }

    /// What a garage asks of another service for one of its guests. An
    /// invocation that is too deep is not made. A header whose value is no plain
    /// text is sent without one, and a request without a host is given the name of
    /// the service.
    pub fn logical_invocation(&self, invocation: ServiceInvocation, request_id: &str) -> (request:
        Result<LogicalInvocationRequest, Failure>)
        ensures
            if invocation.context.depth > self.max_invocation_depth {
                request matches Err(failure) && failure.says(
                    "maximum invocation depth "@ + text::decimal(
                        self.max_invocation_depth as nat,
                    ) + " exceeded"@,
                )
            } else {
                request matches Ok(request) && {
                    &&& request.protocol_version == self.protocol_version
                    &&& request.request_id@ == "nested-"@ + request_id@
                    &&& request.parent_execution_id == invocation.context.parent_execution_id
                    &&& request.target_service@ == invocation.target.service@
                    &&& request.method == invocation.method
                    &&& request.path_and_query == invocation.target.path_and_query
                    &&& text::text_pairs(request.headers@) == with_host(
                        sent_headers(text::text_pairs(invocation.headers@)),
                        invocation.target.service@,
                    )
                    &&& request.body == invocation.body
                    &&& request.invocation_depth == invocation.context.depth
                    &&& text::optional_text(request.source_garage_id) == Some(self.id@)
                    &&& request.visited_garages == invocation.context.visited_garages
                    &&& request.application_id == invocation.context.application_id
                    &&& request.release_id == invocation.context.release_id
                }
            },
    {
        if invocation.context.depth > self.max_invocation_depth {
            let most = decimal_string(self.max_invocation_depth as u64);
            return Err(
                Failure::of(concat3("maximum invocation depth ", most.as_str(), " exceeded")),
            );
        }
        let mut headers = write_headers(&invocation.headers);
        let ghost given = headers@;
        if !names_host(&headers) {
            headers.push(("host".to_owned(), invocation.target.service.clone()));
            proof {
                assert(text::text_pairs(headers@) =~= text::text_pairs(given).push(
                    ("host"@, invocation.target.service@),
                ));
            }
        }
        Ok(
            LogicalInvocationRequest {
                protocol_version: self.protocol_version,
                request_id: concat2("nested-", request_id),
                parent_execution_id: invocation.context.parent_execution_id,
                target_service: invocation.target.service,
                method: invocation.method,
                path_and_query: invocation.target.path_and_query,
                headers,
                body: invocation.body,
                invocation_depth: invocation.context.depth,
                source_garage_id: Some(self.id.clone()),
                visited_garages: invocation.context.visited_garages,
                application_id: invocation.context.application_id,
                release_id: invocation.context.release_id,
            },
        )
    }
}

/// A garage never executes an invocation that it has handed on: where the
/// garages that an invocation has been through are those of a guest of the
/// garage, or more, it is refused.
pub proof fn law_cycles_are_refused(
    garage: Garage,
    handed_on: HttpRequest,
    request: RemoteExecutionRequest,
    has_permit: bool,
)
    requires
        text::texts(handed_on.visited_garages@).len() > 0,
        text::texts(handed_on.visited_garages@).last() == garage.id@,
        handed_on.visited_garages@.len() <= request.visited_garages@.len(),
        text::texts(request.visited_garages@).take(handed_on.visited_garages@.len() as int)
            == text::texts(handed_on.visited_garages@),
    ensures
        refusal(garage, request, has_permit) is Some,
{
    let before = text::texts(handed_on.visited_garages@);
    let now = text::texts(request.visited_garages@);
    let last = before.len() - 1;
    assert(now.take(before.len() as int)[last] == now[last]);
    assert(now[last] == garage.id@);
}

/// A garage admits a request exactly where the request speaks its protocol, asks
/// for the runtime that it has, has not been through the garage, is no deeper
/// than sixteen invocations, and there is a permit for it. Nothing else of the
/// request matters.
pub proof fn law_requests_are_admitted(
    garage: Garage,
    request: RemoteExecutionRequest,
    has_permit: bool,
    admitted: Result<(), RemoteExecutionResponse>,
)
    requires
        call_ensures(Garage::screen, (&garage, &request, has_permit), admitted),
    ensures
        admitted is Ok <==> {
            &&& request.protocol_version == garage.protocol_version
            &&& request.runtime_contract is WasiHttpProxy
            &&& forall|i: int|
                0 <= i < request.visited_garages@.len() ==> (
                #[trigger] request.visited_garages@[i])@ != garage.id@
            &&& request.invocation_depth <= 16
            &&& has_permit
        },
{
    let visited = text::texts(request.visited_garages@);
    assert(visited.len() == request.visited_garages@.len());
    assert(forall|i: int|
        0 <= i < visited.len() ==> #[trigger] visited[i] == request.visited_garages@[i]@);
    if visited.contains(garage.id@) {
        let i = choose|i: int| 0 <= i < visited.len() && visited[i] == garage.id@;
        assert(request.visited_garages@[i]@ == garage.id@);
    } else {
        assert forall|i: int| 0 <= i < request.visited_garages@.len() implies (
        #[trigger] request.visited_garages@[i])@ != garage.id@ by {
            assert(visited[i] == request.visited_garages@[i]@);
        }
    }
}

/// A refused request is answered in the garage's name and under its own, with
/// nothing of a guest in the answer. What is said is the first thing that is
/// wrong with it: the protocol, the runtime, the way it came, and only then that
/// there is no room.
pub proof fn law_refusals_name_their_reason(
    garage: Garage,
    request: RemoteExecutionRequest,
    has_permit: bool,
    admitted: Result<(), RemoteExecutionResponse>,
)
    requires
        call_ensures(Garage::screen, (&garage, &request, has_permit), admitted),
        admitted is Err,
    ensures
        ({
            let response = admitted->Err_0;
            &&& !response.accepted
            &&& !response.started
            &&& response.protocol_version == garage.protocol_version
            &&& response.garage_id@ == garage.id@
            &&& response.execution_id@ == request.execution_id@
            &&& response.guest_status is None
            &&& response.lane_id is None
            &&& response.timing is None
            &&& response.headers@.len() == 0
            &&& response.body@.len() == 0
            &&& response.error_message is Some
            &&& response.error_message->0@ == if request.protocol_version
                != garage.protocol_version {
                "unsupported remote protocol"@
            } else if !(request.runtime_contract is WasiHttpProxy) {
                "Garage currently executes wasi:http/proxy remotely"@
            } else if text::texts(request.visited_garages@).contains(garage.id@) {
                "Garage already appears in invocation path"@
            } else if request.invocation_depth > 16 {
                "maximum invocation depth exceeded"@
            } else {
                "Garage admission limit exceeded"@
            }
            &&& (response.error == Some(RemoteExecutionError::UnsupportedProtocol)
                <==> request.protocol_version != garage.protocol_version)
            &&& (response.error == Some(RemoteExecutionError::UnsupportedRuntime)
                <==> request.protocol_version == garage.protocol_version && !(
            request.runtime_contract is WasiHttpProxy))
            &&& (response.error == Some(RemoteExecutionError::Overloaded)
                <==> request.protocol_version == garage.protocol_version
                && request.runtime_contract is WasiHttpProxy && !text::texts(
                request.visited_garages@,
            ).contains(garage.id@) && request.invocation_depth <= 16)
            &&& (response.error == Some(RemoteExecutionError::Overloaded) ==> !has_permit)
            &&& (response.error == Some(RemoteExecutionError::InvocationCycle)
                <==> request.protocol_version == garage.protocol_version
                && request.runtime_contract is WasiHttpProxy && (text::texts(
                request.visited_garages@,
            ).contains(garage.id@) || request.invocation_depth > 16))
        }),
{
}

/// What a garage asks of another service for one of its guests.
#[derive(Debug)]
pub struct LogicalInvocationRequest {
    pub protocol_version: u32,
    pub request_id: String,
    pub parent_execution_id: Option<String>,
    pub target_service: String,
    pub method: String,
    pub path_and_query: String,
    pub headers: Vec<(String, String)>,
    pub body: Vec<u8>,
    pub invocation_depth: u16,
    pub source_garage_id: Option<String>,
    pub visited_garages: Vec<String>,
    pub application_id: Option<String>,
    pub release_id: Option<String>,
}

/// Whether headers name a host.
pub open spec fn names_a_host(headers: Seq<(Seq<char>, Seq<char>)>) -> bool {
    exists|i: int|
        0 <= i < headers.len() && text::same_ignoring_case((#[trigger] headers[i]).0, "host"@)
}

/// The value of a header where it is plain text, and nothing where it is not.
pub open spec fn plain_value(value: Seq<char>) -> Seq<char> {
    match web::plain_text(vstd::utf8::encode_utf8(value)) {
        Some(plain) => plain,
        None => Seq::empty(),
    }
}

/// The headers that are sent: those with plain text for a value, and the others
/// without one.
pub open spec fn sent_headers(headers: Seq<(Seq<char>, Seq<char>)>) -> Seq<
    (Seq<char>, Seq<char>),
> {
    headers.map_values(|header: (Seq<char>, Seq<char>)| (header.0, plain_value(header.1)))
}

fn write_headers(headers: &Vec<(String, String)>) -> (sent: Vec<(String, String)>)
    ensures
        text::text_pairs(sent@) == sent_headers(text::text_pairs(headers@)),
{
    let count = headers.len();
    let mut sent: Vec<(String, String)> = Vec::new();
    let mut i: usize = 0;
    while i < count
        invariant
            i <= count,
            count == headers@.len(),
            sent@.len() == i,
            forall|k: int|
                0 <= k < i ==> (#[trigger] sent@[k]).0@ == headers@[k].0@ && sent@[k].1@
                    == plain_value(headers@[k].1@),
        decreases count - i,
    {
        let value = match header_text(headers[i].1.as_str().as_bytes()) {
            Some(value) => value,
            None => String::new(),
        };
        proof {
            assert(value@ =~= plain_value(headers@[i as int].1@));
        }
        sent.push((headers[i].0.clone(), value));
        i += 1;
    }
    proof {
        assert(text::text_pairs(sent@) =~= sent_headers(text::text_pairs(headers@)));
    }
    sent
}

/// Headers that name a host: the given one, where none is named.
pub open spec fn with_host(headers: Seq<(Seq<char>, Seq<char>)>, host: Seq<char>) -> Seq<
    (Seq<char>, Seq<char>),
> {
    if names_a_host(headers) {
        headers
    } else {
        headers.push(("host"@, host))
    }
}

fn names_host(headers: &Vec<(String, String)>) -> (named: bool)
    ensures
        named == names_a_host(text::text_pairs(headers@)),
{
    let ghost all = text::text_pairs(headers@);
    let count = headers.len();
    let mut i: usize = 0;
    while i < count
        invariant
            i <= count,
            count == headers@.len(),
            all == text::text_pairs(headers@),
            forall|k: int|
                0 <= k < i ==> !text::same_ignoring_case((#[trigger] all[k]).0, "host"@),
        decreases count - i,
    {
        proof {
            assert(all[i as int].0 == headers@[i as int].0@);
        }
        if equal_ignoring_case(headers[i].0.as_str(), "host") {
            return true;
        }
        i += 1;
    }
    false
}

/// What another service answers.
#[derive(Debug)]
pub struct LogicalInvocationResponse {
    pub accepted: bool,
    pub started: bool,
    pub guest_status: Option<u16>,
    pub headers: Vec<(String, String)>,
    pub body: Vec<u8>,
    pub error_message: Option<String>,
    pub child_execution_id: Option<String>,
}

/// An answer that can be handed to the guest that asked.
#[derive(Debug)]
pub struct ServiceAnswer {
    pub status: u16,
    pub headers: Vec<(String, String)>,
    pub body: Vec<u8>,
    pub child_execution_id: Option<String>,
}

/// `http::StatusCode::from_u16`: a status code has three digits. The error says
/// that it has not.
#[verifier::external_body]
fn read_status(status: u16) -> (read: Result<u16, String>)
    ensures
        match read {
            Ok(same) => 100 <= status < 1000 && same == status,
            Err(error) => !(100 <= status < 1000) && error@ == "invalid status code"@,
        },
{
    match StatusCode::from_u16(status) {
        Ok(read) => Ok(read.as_u16()),
        Err(error) => Err(error.to_string()),
    }
}

/// Why an answer cannot be handed to the guest that asked.
pub open spec fn answer_problem(response: LogicalInvocationResponse) -> Option<Seq<char>> {
    if !response.accepted || !response.started {
        Some(
            "nested service invocation rejected: "@ + match response.error_message {
                Some(message) => message@,
                None => "unknown error"@,
            },
        )
    } else {
        match response.guest_status {
            None => Some("nested invocation returned no guest status"@),
            Some(status) => if 100 <= status < 1000 {
                None
            } else {
                Some("invalid status code"@)
            },
        }
    }
}

/// Takes the answer of another service. Headers that have no name or no value
/// are left out.
pub fn accept_answer(response: LogicalInvocationResponse) -> (answer: Result<ServiceAnswer, Failure>)
    ensures
        match answer_problem(response) {
            Some(problem) => answer matches Err(failure) && failure.says(problem),
            None => answer matches Ok(answer) && {
                &&& Some(answer.status) == response.guest_status
                &&& text::text_pairs(answer.headers@) == web::usable_headers(
                    text::text_pairs(response.headers@),
                )
                &&& answer.body == response.body
                &&& answer.child_execution_id == response.child_execution_id
            },
        },
{
    if !response.accepted || !response.started {
        let why = match response.error_message {
            Some(message) => message,
            None => "unknown error".to_owned(),
        };
        return Err(
            Failure::of(concat2("nested service invocation rejected: ", why.as_str())),
        );
    }
    let status = match response.guest_status {
        Some(status) => status,
        None => {
            return Err(Failure::new("nested invocation returned no guest status"));
        },
    };
    let status = match read_status(status) {
        Ok(status) => status,
        Err(error) => {
            return Err(Failure::of(error));
        },
    };
    let headers = keep_usable_headers(&response.headers);
    Ok(
        ServiceAnswer {
            status,
            headers,
            body: response.body,
            child_execution_id: response.child_execution_id,
        },
    )
}

/// An answer is taken exactly where the request was accepted and started and the
/// guest answered with a status of three digits. What is handed on has that
/// status, whatever it is, and the body as it came.
pub proof fn law_answers_are_taken(
    response: LogicalInvocationResponse,
    answer: Result<ServiceAnswer, Failure>,
)
    requires
        call_ensures(accept_answer, (response,), answer),
    ensures
        answer is Ok <==> response.accepted && response.started && (
        response.guest_status matches Some(status) && 100 <= status <= 999),
        answer matches Ok(answer) ==> {
            &&& response.guest_status == Some(answer.status)
            &&& answer.body == response.body
            &&& answer.child_execution_id == response.child_execution_id
            &&& answer.headers@.len() <= response.headers@.len()
            &&& text::text_pairs(answer.headers@) == web::usable_headers(
                text::text_pairs(response.headers@),
            )
        },
        answer matches Err(failure) ==> {
            &&& (!(response.accepted && response.started) ==> failure.says(
                "nested service invocation rejected: "@ + match response.error_message {
                    Some(message) => message@,
                    None => "unknown error"@,
                },
            ))
            &&& (response.accepted && response.started && response.guest_status is None
                ==> failure.says("nested invocation returned no guest status"@))
            &&& (response.accepted && response.started && response.guest_status is Some
                ==> failure.says("invalid status code"@))
        },
{
    if let Ok(answer) = answer {
        web::law_usable_headers_are_kept(text::text_pairs(response.headers@));
    }
}

/// The report on an artifact that was ready already.
pub open spec fn hot_report() -> PreparationReport {
    PreparationReport {
        readiness: ReadinessState::Hot,
        source: CompiledCacheSource::WarmRestored,
        ..preparation::plain_report()
    }
}

/// The report on an artifact that was ready already.
pub fn already_hot(duration: Span) -> (report: WarmupReport)
    ensures
        report.preparation == hot_report(),
        report.duration == duration,
{
    WarmupReport {
        preparation: PreparationReport {
            readiness: ReadinessState::Hot,
            source: CompiledCacheSource::WarmRestored,
            ..PreparationReport::default()
        },
        duration,
    }
}

/// Where an artifact that is not local is fetched from: the store that the
/// request names, or else the garage's own. Without a store it cannot be had.
pub fn acquisition_source(
    digest: &str,
    requested: &Option<String>,
    own: &str,
    has_store: bool,
) -> (source: Result<String, Failure>)
    ensures
        if !has_store {
            source matches Err(failure) && failure.says(
                "artifact "@ + digest@ + " is not local and no Paddock is configured"@,
            )
        } else {
            source matches Ok(source) && source@ == match *requested {
                Some(requested) => requested@,
                None => own@,
            }
        },
{
    if !has_store {
        return Err(
            Failure::of(
                concat3("artifact ", digest, " is not local and no Paddock is configured"),
            ),
        );
    }
    match requested {
        Some(requested) => Ok(requested.clone()),
        None => Ok(own.to_owned()),
    }
}

/// What a garage has done so far. The counts go round.
#[derive(Debug, Clone, Copy, PartialEq, Eq, Structural)]
pub struct GarageCounters {
    pub remote_acquisitions: usize,
    pub preparations: usize,
    pub compilations: usize,
    pub warm_restores: usize,
    pub cache_publications: usize,
    pub executions: usize,
}

/// A count with one more.
pub open spec fn one_more(count: usize) -> usize {
    if count == usize::MAX {
        0
    } else {
        (count + 1) as usize
    }
}

impl GarageCounters {
    /// Nothing was done yet.
    pub fn new() -> (counters: GarageCounters)
        ensures
            counters.remote_acquisitions == 0,
            counters.preparations == 0,
            counters.compilations == 0,
            counters.warm_restores == 0,
            counters.cache_publications == 0,
            counters.executions == 0,
    {
        GarageCounters {
            remote_acquisitions: 0,
            preparations: 0,
            compilations: 0,
            warm_restores: 0,
            cache_publications: 0,
            executions: 0,
        }
    }

    /// An artifact was fetched from elsewhere.
    pub fn acquired(&mut self)
        ensures
            *final(self) == (GarageCounters {
                remote_acquisitions: one_more(old(self).remote_acquisitions),
                ..*old(self)
            }),
    {
        self.remote_acquisitions = self.remote_acquisitions.wrapping_add(1);
    }

    /// The preparation of an artifact begins.
    pub fn preparing(&mut self)
        ensures
            *final(self) == (GarageCounters {
                preparations: one_more(old(self).preparations),
                ..*old(self)
            }),
    {
        self.preparations = self.preparations.wrapping_add(1);
    }

    /// An execution begins.
    pub fn executing(&mut self)
        ensures
            *final(self) == (GarageCounters {
                executions: one_more(old(self).executions),
                ..*old(self)
            }),
    {
        self.executions = self.executions.wrapping_add(1);
    }

    /// An artifact was prepared: compiled or restored, and published where that
    /// took any time.
    pub fn prepared(&mut self, report: &PreparationReport)
        ensures
            *final(self) == (GarageCounters {
                compilations: if report.source == CompiledCacheSource::ColdCompiled {
                    one_more(old(self).compilations)
                } else {
                    old(self).compilations
                },
                warm_restores: if report.source == CompiledCacheSource::WarmRestored {
                    one_more(old(self).warm_restores)
                } else {
                    old(self).warm_restores
                },
                cache_publications: if report.cache_publication_duration.nanos > 0 {
                    one_more(old(self).cache_publications)
                } else {
                    old(self).cache_publications
                },
                ..*old(self)
            }),
    {
        match report.source {
            CompiledCacheSource::ColdCompiled => {
                self.compilations = self.compilations.wrapping_add(1);
            },
            CompiledCacheSource::WarmRestored => {
                self.warm_restores = self.warm_restores.wrapping_add(1);
            },
        }
        if report.cache_publication_duration.nanos > 0 {
            self.cache_publications = self.cache_publications.wrapping_add(1);
        }
    }
}

/// What one who wants an artifact to be ready is told.
#[derive(Debug, Clone, Copy, PartialEq, Eq, Structural)]
pub enum WarmupTurn {
    /// Make it ready, and tell the others.
    Lead,
    /// Somebody else is making it ready: wait.
    Wait,
    /// It is ready.
    Ready(WarmupReport),
}

/// Which artifacts are being made ready, and which are.
pub struct WarmupTable {
    digests: Vec<String>,
    flights: Vec<Option<WarmupReport>>,
}

/// What is known of an artifact: nothing, that it is being made ready, or that
/// it is ready.
pub enum WarmupState {
    Unknown,
    InFlight,
    Done(WarmupReport),
}

impl WarmupTable {
    /// Each artifact is listed once.
    pub closed spec fn wf(&self) -> bool {
        &&& self.digests@.len() == self.flights@.len()
        &&& forall|i: int, j: int|
            0 <= i < j < self.digests@.len() ==> (#[trigger] self.digests@[i])@ != (
            #[trigger] self.digests@[j])@
    }

    /// What is known of an artifact.
    pub closed spec fn state_of(&self, digest: Seq<char>) -> WarmupState {
        if exists|i: int| 0 <= i < self.digests@.len() && (#[trigger] self.digests@[i])@ == digest {
            let i = choose|i: int|
                0 <= i < self.digests@.len() && (#[trigger] self.digests@[i])@ == digest;
            match self.flights@[i] {
                Some(report) => WarmupState::Done(report),
                None => WarmupState::InFlight,
            }
        } else {
            WarmupState::Unknown
        }
    }

    /// A table that nothing is known in.
    pub fn new() -> (table: WarmupTable)
        ensures
            table.wf(),
            forall|digest: Seq<char>| #[trigger] table.state_of(digest) is Unknown,
    {
        WarmupTable { digests: Vec::new(), flights: Vec::new() }
    }

    proof fn lemma_state_at(&self, at: int)
        requires
            self.wf(),
            0 <= at < self.digests@.len(),
        ensures
            self.state_of(self.digests@[at]@) == match self.flights@[at] {
                Some(report) => WarmupState::Done(report),
                None => WarmupState::InFlight,
            },
    {
        let digest = self.digests@[at]@;
        let i = choose|i: int|
            0 <= i < self.digests@.len() && (#[trigger] self.digests@[i])@ == digest;
        assert(self.digests@[at]@ == digest);
        if i < at {
            assert(self.digests@[i]@ != self.digests@[at]@);
        } else if at < i {
            assert(self.digests@[at]@ != self.digests@[i]@);
        }
    }

    fn find(&self, digest: &str) -> (at: Option<usize>)
        requires
            self.wf(),
        ensures
            match at {
                Some(at) => at < self.digests@.len() && self.digests@[at as int]@ == digest@,
                None => forall|i: int|
                    0 <= i < self.digests@.len() ==> (#[trigger] self.digests@[i])@ != digest@,
            },
    {
        let count = self.digests.len();
        let mut i: usize = 0;
        while i < count
            invariant
                i <= count,
                count == self.digests@.len(),
                forall|k: int| 0 <= k < i ==> (#[trigger] self.digests@[k])@ != digest@,
            decreases count - i,
        {
            if same(self.digests[i].as_str(), digest) {
                return Some(i);
            }
            i += 1;
        }
        None
    }

    /// Somebody wants an artifact to be ready. The first one leads; those who
    /// come before it is ready wait, and those who come later are told so.
    pub fn join(&mut self, digest: &str) -> (turn: WarmupTurn)
        requires
            old(self).wf(),
        ensures
            final(self).wf(),
            match old(self).state_of(digest@) {
                WarmupState::Unknown => turn == WarmupTurn::Lead && final(self).state_of(
                    digest@,
                ) is InFlight,
                WarmupState::InFlight => turn == WarmupTurn::Wait && *final(self) == *old(self),
                WarmupState::Done(report) => turn == WarmupTurn::Ready(report) && *final(self)
                    == *old(self),
            },
            forall|other: Seq<char>|
                other != digest@ ==> #[trigger] final(self).state_of(other) == old(self).state_of(
                    other,
                ),
    {
        match self.find(digest) {
            Some(at) => {
                proof {
                    self.lemma_state_at(at as int);
                }
                match self.flights[at] {
                    Some(report) => WarmupTurn::Ready(report),
                    None => WarmupTurn::Wait,
                }
            },
            None => {
                self.digests.push(digest.to_owned());
                self.flights.push(None);
                proof {
                    let last = self.digests@.len() - 1;
                    assert(self.digests@[last]@ == digest@);
                    self.lemma_state_at(last);
                    self.lemma_rest(old(self), digest@);
                }
                WarmupTurn::Lead
            },
        }
    }

    /// What is known of others does not change when an artifact is added.
    proof fn lemma_rest(&self, before: &WarmupTable, added: Seq<char>)
        requires
            self.wf(),
            before.wf(),
            self.digests@.len() == before.digests@.len() + 1,
            self.digests@.last()@ == added,
            forall|i: int|
                0 <= i < before.digests@.len() ==> #[trigger] self.digests@[i]
                    == before.digests@[i] && self.flights@[i] == before.flights@[i],
        ensures
            forall|other: Seq<char>|
                other != added ==> #[trigger] self.state_of(other) == before.state_of(other),
    {
        assert forall|other: Seq<char>| other != added implies #[trigger] self.state_of(other)
            == before.state_of(other) by {
            if exists|i: int|
                0 <= i < before.digests@.len() && (#[trigger] before.digests@[i])@ == other {
                let i = choose|i: int|
                    0 <= i < before.digests@.len() && (#[trigger] before.digests@[i])@ == other;
                before.lemma_state_at(i);
                assert(self.digests@[i] == before.digests@[i]);
                self.lemma_state_at(i);
            } else {
                assert forall|i: int| 0 <= i < self.digests@.len() implies (
                #[trigger] self.digests@[i])@ != other by {
                    if i < before.digests@.len() {
                        assert(before.digests@[i]@ != other);
                    }
                }
            }
        }
    }

    /// The one who leads is done. What is ready is known as such from then on;
    /// what failed is forgotten, so that the next one leads again.
    pub fn complete(&mut self, digest: &str, outcome: Result<WarmupReport, String>)
        requires
            old(self).wf(),
            old(self).state_of(digest@) is InFlight,
        ensures
            final(self).wf(),
            match outcome {
                Ok(report) => final(self).state_of(digest@) == WarmupState::Done(report),
                Err(_) => final(self).state_of(digest@) is Unknown,
            },
            forall|other: Seq<char>|
                other != digest@ ==> #[trigger] final(self).state_of(other) == old(self).state_of(
                    other,
                ),
    {
        let at = match self.find(digest) {
            Some(at) => at,
            None => {
                return ;
            },
        };
        match outcome {
            Ok(report) => {
                self.flights.set(at, Some(report));
                proof {
                    self.lemma_state_at(at as int);
                    self.lemma_changed(old(self), at as int);
                }
            },
            Err(_) => {
                let _digest = self.digests.remove(at);
                let _flight = self.flights.remove(at);
                proof {
                    self.lemma_removed(old(self), at as int);
                }
            },
        }
    }

    proof fn lemma_changed(&self, before: &WarmupTable, at: int)
        requires
            self.wf(),
            before.wf(),
            0 <= at < before.digests@.len(),
            self.digests@ == before.digests@,
            forall|i: int|
                0 <= i < before.flights@.len() && i != at ==> #[trigger] self.flights@[i]
                    == before.flights@[i],
        ensures
            forall|other: Seq<char>|
                other != before.digests@[at]@ ==> #[trigger] self.state_of(other)
                    == before.state_of(other),
    {
        assert forall|other: Seq<char>| other != before.digests@[at]@ implies #[trigger] self.state_of(
            other,
        ) == before.state_of(other) by {
            if exists|i: int|
                0 <= i < before.digests@.len() && (#[trigger] before.digests@[i])@ == other {
                let i = choose|i: int|
                    0 <= i < before.digests@.len() && (#[trigger] before.digests@[i])@ == other;
                before.lemma_state_at(i);
                self.lemma_state_at(i);
                assert(self.flights@[i] == before.flights@[i]);
            }
        }
    }

    proof fn lemma_removed(&self, before: &WarmupTable, at: int)
        requires
            before.wf(),
            0 <= at < before.digests@.len(),
            self.digests@ == before.digests@.remove(at),
            self.flights@ == before.flights@.remove(at),
        ensures
            self.wf(),
            self.state_of(before.digests@[at]@) is Unknown,
            forall|other: Seq<char>|
                other != before.digests@[at]@ ==> #[trigger] self.state_of(other)
                    == before.state_of(other),
    {
        let gone = before.digests@[at]@;
        assert forall|i: int, j: int| 0 <= i < j < self.digests@.len() implies (
        #[trigger] self.digests@[i])@ != (#[trigger] self.digests@[j])@ by {
            let (p, q) = (if i < at {
                i
            } else {
                i + 1
            }, if j < at {
                j
            } else {
                j + 1
            });
            assert(before.digests@[p]@ != before.digests@[q]@);
        }
        assert forall|i: int| 0 <= i < self.digests@.len() implies (#[trigger] self.digests@[i])@
            != gone by {
            if i < at {
                assert(before.digests@[i]@ != before.digests@[at]@);
            } else {
                assert(before.digests@[at]@ != before.digests@[i + 1]@);
            }
        }
        assert forall|other: Seq<char>| other != gone implies #[trigger] self.state_of(other)
            == before.state_of(other) by {
            if exists|i: int|
                0 <= i < before.digests@.len() && (#[trigger] before.digests@[i])@ == other {
                let i = choose|i: int|
                    0 <= i < before.digests@.len() && (#[trigger] before.digests@[i])@ == other;
                let k = if i < at {
                    i
                } else {
                    i - 1
                };
                before.lemma_state_at(i);
                assert(self.digests@[k]@ == other);
                self.lemma_state_at(k);
            } else {
                assert forall|i: int| 0 <= i < self.digests@.len() implies (
                #[trigger] self.digests@[i])@ != other by {
                    if i < at {
                        assert(before.digests@[i]@ != other);
                    } else {
                        assert(before.digests@[i + 1]@ != other);
                    }
                }
            }
        }
    }
}

/// What a garage tells of its lanes.
#[derive(Debug, Clone, Copy, PartialEq, Eq, Structural)]
pub struct LaneReport {
    pub total_lanes: usize,
    pub active_lanes: usize,
    pub free_lanes: usize,
    pub queue_depth: usize,
}

/// What a garage tells of its lanes.
pub fn lane_report(snapshot: &SchedulerSnapshot) -> (report: LaneReport)
    ensures
        report.total_lanes == snapshot.lane_count,
        report.active_lanes == snapshot.running,
        report.free_lanes == if snapshot.running > snapshot.lane_count {
            0
        } else {
            snapshot.lane_count - snapshot.running
        },
        report.queue_depth == snapshot.queued,
{
    LaneReport {
        total_lanes: snapshot.lane_count,
        active_lanes: snapshot.running,
        free_lanes: if snapshot.running > snapshot.lane_count {
            0
        } else {
            snapshot.lane_count - snapshot.running
        },
        queue_depth: snapshot.queued,
    }
}

/// A file among the artifacts of a garage: its extension and the rest of its
/// name, as far as they are texts, and whether the host reads that rest as a
/// digest.
#[derive(Debug)]
pub struct ArtifactFile {
    pub extension: Option<String>,
    pub stem: Option<String>,
    pub is_digest: bool,
}

/// The digests that the files of a garage are named after.
pub open spec fn named_digests(files: Seq<ArtifactFile>) -> Seq<Seq<char>>
    decreases files.len(),
{
    if files.len() == 0 {
        Seq::empty()
    } else {
        let rest = named_digests(files.drop_last());
        match (files.last().extension, files.last().stem) {
            (Some(extension), Some(stem)) if extension@ == "wasm"@ && files.last().is_digest =>
                rest.push("sha256:"@ + stem@),
            _ => rest,
        }
    }
}

/// The digests that the files of a garage are named after, each once and in
/// order.
pub fn local_digests(files: &Vec<ArtifactFile>) -> (digests: Vec<String>)
    ensures
        names::lists(text::texts(digests@), named_digests(files@)),
{
    let count = files.len();
    let mut found: Vec<String> = Vec::new();
    let mut i: usize = 0;
    proof {
        assert(files@.take(0) =~= Seq::<ArtifactFile>::empty());
        assert(text::texts(found@) =~= Seq::<Seq<char>>::empty());
    }
    while i < count
        invariant
            i <= count,
            count == files@.len(),
            text::texts(found@) == named_digests(files@.take(i as int)),
        decreases count - i,
    {
        let ghost before = found@;
        proof {
            assert(files@.take(i + 1).drop_last() =~= files@.take(i as int));
        }
        match (&files[i].extension, &files[i].stem) {
            (Some(extension), Some(stem)) => {
                if same(extension.as_str(), "wasm") && files[i].is_digest {
                    found.push(concat2("sha256:", stem.as_str()));
                    proof {
                        assert(text::texts(found@) =~= text::texts(before).push(
                            "sha256:"@ + stem@,
                        ));
                    }
                }
            },
            _ => {},
        }
        i += 1;
    }
    proof {
        assert(files@.take(count as int) =~= files@);
    }
    distinct_in_order(found)
}

/// What a garage is asked over HTTP.
#[derive(Debug, Clone, Copy, PartialEq, Eq, Structural)]
pub enum GarageRoute {
    Execute,
    Runtime,
    Unknown,
}

/// What a garage is asked over HTTP, by the method and the path.
pub fn route(method: &str, path: &str) -> (asked: GarageRoute)
    ensures
        asked == if method@ == "POST"@ && path@ == "/v1/execute"@ {
            GarageRoute::Execute
        } else if method@ == "GET"@ && path@ == "/v1/runtime"@ {
            GarageRoute::Runtime
        } else {
            GarageRoute::Unknown
        },
{
    if same(method, "POST") && same(path, "/v1/execute") {
        GarageRoute::Execute
    } else if same(method, "GET") && same(path, "/v1/runtime") {
        GarageRoute::Runtime
    } else {
        GarageRoute::Unknown
    }
}

/// Checks that a garage listens to this machine alone.
pub fn check_listener(listen: &TcpEndpoint) -> (checked: Result<(), Failure>)
    ensures
        if listen.loopback() {
            checked is Ok
        } else {
            checked matches Err(failure) && failure.says(
                "Garage listener must be loopback-only in v0.9"@,
            )
        },
{
    if listen.is_loopback() {
        Ok(())
    } else {
        Err(Failure::new("Garage listener must be loopback-only in v0.9"))
    }
}

/// An endpoint without the slashes at its end.
pub open spec fn without_slashes(s: Seq<char>) -> Seq<char>
    decreases s.len(),
{
    if s.len() > 0 && s.last() == '/' {
        without_slashes(s.drop_last())
    } else {
        s
    }
}

/// An endpoint without the slashes at its end.
pub fn trim_endpoint(endpoint: &str) -> (trimmed: String)
    ensures
        trimmed@ == without_slashes(endpoint@),
{
    let mut chars = chars_of(endpoint);
    while chars.len() > 0 && chars[chars.len() - 1] == '/'
        invariant
            without_slashes(chars@) == without_slashes(endpoint@),
        decreases chars@.len(),
    {
        let ghost before = chars@;
        let _slash = chars.pop();
        proof {
            assert(chars@ =~= before.drop_last());
        }
    }
    string_of(chars.as_slice())
}

/// How many preparations may run at once: at least one.
pub fn preparation_budget(wanted: usize) -> (budget: usize)
    ensures
        budget == if wanted == 0 {
            1
        } else {
            wanted
        },
{
    if wanted == 0 {
        1
    } else {
        wanted
    }
}

/// What the dispatcher finished is answered as it is: the guest's answer with its
/// status, its headers and its body and without an error, or the error that it
/// ended with. Such a request counts as accepted and started whatever came of it.
/// An execution without an answer timed out exactly where its error says so.
pub proof fn law_finished_executions_are_answered(
    garage: Garage,
    execution_id: &str,
    result: HttpDispatchResult,
    warmup: WarmupReport,
    total: Span,
    response: RemoteExecutionResponse,
)
    requires
        call_ensures(
            Garage::respond,
            (&garage, execution_id, DispatchOutcome::Finished(result), &warmup, total),
            response,
        ),
    ensures
        response.accepted,
        response.started,
        response.garage_id@ == garage.id@,
        response.protocol_version == garage.protocol_version,
        response.lane_id == Some(result.lane_id.0),
        response.execution_id@.len() >= 4,
        result.response matches Some(answer) ==> {
            &&& response.guest_status == Some(answer.status)
            &&& response.headers == answer.headers
            &&& response.body == answer.body
            &&& response.error is None
            &&& response.error_message is None
        },
        result.response is None ==> {
            &&& response.guest_status is None
            &&& response.headers@.len() == 0
            &&& response.body@.len() == 0
            &&& response.error_message == result.error
            &&& (response.error == Some(RemoteExecutionError::Timeout) <==> result.error is Some
                && text::includes_text(result.error->0@, "timeout"@))
            &&& (response.error == Some(RemoteExecutionError::GuestFailure) <==> !(
            result.error is Some && text::includes_text(result.error->0@, "timeout"@)))
        },
        response.timing is Some,
        ({
            let timing = response.timing->0;
            &&& 1000 * timing.total_us <= total.nanos < 1000 * timing.total_us + 1000
            &&& 1000 * timing.preparation_us <= warmup.duration.nanos < 1000 * timing.preparation_us
                + 1000
            &&& 1000 * timing.compile_us <= warmup.preparation.compile_duration.nanos < 1000
                * timing.compile_us + 1000
            &&& 1000 * timing.restore_us <= warmup.preparation.restore_duration.nanos < 1000
                * timing.restore_us + 1000
            &&& 1000 * timing.prepared_lookup_us <= result.prepared_lookup.nanos < 1000
                * timing.prepared_lookup_us + 1000
            &&& 1000 * timing.scheduler_queue_us <= result.queued_for.nanos < 1000
                * timing.scheduler_queue_us + 1000
            &&& 1000 * timing.guest_started_us <= result.guest_started_after_request.nanos < 1000
                * timing.guest_started_us + 1000
            &&& 1000 * timing.guest_execution_us <= result.duration.nanos < 1000
                * timing.guest_execution_us + 1000
        }),
{
}

/// What the dispatcher refused or lost is answered as accepted, started and
/// failed, with the reason, under the name of the request. The two are told apart:
/// one is a failure of the guest, the other of the garage.
pub proof fn law_lost_executions_are_answered(
    garage: Garage,
    execution_id: &str,
    outcome: DispatchOutcome,
    warmup: WarmupReport,
    total: Span,
    response: RemoteExecutionResponse,
)
    requires
        !(outcome is Finished),
        call_ensures(
            Garage::respond,
            (&garage, execution_id, outcome, &warmup, total),
            response,
        ),
    ensures
        response.accepted,
        response.started,
        response.garage_id@ == garage.id@,
        response.execution_id@ == execution_id@,
        response.guest_status is None,
        response.timing is None,
        response.error_message is Some,
        outcome matches DispatchOutcome::Failed(error) ==> response.error == Some(
            RemoteExecutionError::GuestFailure,
        ) && response.error_message->0@ == error@,
        outcome matches DispatchOutcome::Lost(error) ==> response.error == Some(
            RemoteExecutionError::Internal,
        ) && response.error_message->0@ == error@,
{
}

/// A guest is asked what the request says, with no variables and nowhere to connect
/// to, and the garage is the last of the garages that it has been through.
pub proof fn law_guests_are_asked_what_was_requested(
    garage: Garage,
    payload: HttpPayload,
    visited_garages: Vec<String>,
    application_id: Option<String>,
    release_id: Option<String>,
    paddock_grants: Vec<PaddockGrant>,
    request: HttpRequest,
)
    requires
        call_ensures(
            Garage::guest_request,
            (&garage, payload, &visited_garages, application_id, release_id, paddock_grants),
            request,
        ),
    ensures
        request.method == payload.method,
        request.path_and_query == payload.path_and_query,
        request.headers == payload.headers,
        request.body == payload.body,
        request.env@.len() == 0,
        request.allowed_tcp@.len() == 0,
        request.paddock_grants == paddock_grants,
        request.paddock_auth is None,
        request.application_id == application_id,
        request.release_id == release_id,
        request.visited_garages@.len() == visited_garages@.len() + 1,
        request.visited_garages@.last()@ == garage.id@,
        forall|i: int|
            0 <= i < visited_garages@.len() ==> (#[trigger] request.visited_garages@[i])@
                == visited_garages@[i]@,
{
    let now = text::texts(request.visited_garages@);
    let before = text::texts(visited_garages@);
    assert(now.len() == request.visited_garages@.len());
    assert(before.len() == visited_garages@.len());
    assert(now.last() == request.visited_garages@.last()@);
    assert forall|i: int| 0 <= i < visited_garages@.len() implies (
    #[trigger] request.visited_garages@[i])@ == visited_garages@[i]@ by {
        assert(now[i] == request.visited_garages@[i]@);
        assert(before[i] == visited_garages@[i]@);
    }
}

/// A garage makes an invocation for a guest exactly where it is no deeper than the
/// garage allows. What it sends is what the guest asked, in the garage's name and
/// with the path of the invocation as it was. No header is lost or moved, and a
/// host is named: the guest's own, where it gave one, and the service otherwise.
pub proof fn law_invocations_are_made_within_the_depth(
    garage: Garage,
    invocation: ServiceInvocation,
    request_id: &str,
    request: Result<LogicalInvocationRequest, Failure>,
)
    requires
        call_ensures(Garage::logical_invocation, (&garage, invocation, request_id), request),
    ensures
        request is Ok <==> invocation.context.depth <= garage.max_invocation_depth,
        request matches Err(failure) ==> failure.says(
            "maximum invocation depth "@ + text::decimal(garage.max_invocation_depth as nat)
                + " exceeded"@,
        ),
        request matches Ok(request) ==> {
            &&& request.protocol_version == garage.protocol_version
            &&& request.invocation_depth == invocation.context.depth
            &&& request.visited_garages == invocation.context.visited_garages
            &&& request.parent_execution_id == invocation.context.parent_execution_id
            &&& request.application_id == invocation.context.application_id
            &&& request.release_id == invocation.context.release_id
            &&& request.source_garage_id is Some
            &&& request.source_garage_id->0@ == garage.id@
            &&& request.target_service@ == invocation.target.service@
            &&& request.path_and_query == invocation.target.path_and_query
            &&& request.method == invocation.method
            &&& request.body == invocation.body
            &&& request.request_id@ == "nested-"@ + request_id@
            &&& request.headers@.len() >= invocation.headers@.len()
            &&& forall|i: int|
                0 <= i < invocation.headers@.len() ==> (#[trigger] request.headers@[i]).0@
                    == invocation.headers@[i].0@ && request.headers@[i].1@ == plain_value(
                    invocation.headers@[i].1@,
                )
            &&& exists|i: int|
                0 <= i < request.headers@.len() && text::same_ignoring_case(
                    (#[trigger] request.headers@[i]).0@,
                    "host"@,
                )
            &&& request.headers@.len() > invocation.headers@.len() ==> {
                &&& request.headers@.len() == invocation.headers@.len() + 1
                &&& request.headers@.last().0@ == "host"@
                &&& request.headers@.last().1@ == invocation.target.service@
                &&& forall|i: int|
                    0 <= i < invocation.headers@.len() ==> !text::same_ignoring_case(
                        (#[trigger] invocation.headers@[i]).0@,
                        "host"@,
                    )
            }
        },
{
    if let Ok(request) = request {
        let given = text::text_pairs(invocation.headers@);
        let sent = sent_headers(given);
        let all = text::text_pairs(request.headers@);
        assert(given.len() == invocation.headers@.len());
        assert(all.len() == request.headers@.len());
        assert forall|i: int| 0 <= i < all.len() implies #[trigger] all[i] == (
            request.headers@[i].0@,
            request.headers@[i].1@,
        ) by {}
        assert forall|i: int| 0 <= i < given.len() implies (#[trigger] sent[i]).0
            == invocation.headers@[i].0@ && sent[i].1 == plain_value(
            invocation.headers@[i].1@,
        ) by {
            assert(given[i] == (invocation.headers@[i].0@, invocation.headers@[i].1@));
        }
        assert forall|i: int| 0 <= i < invocation.headers@.len() implies (
        #[trigger] request.headers@[i]).0@ == invocation.headers@[i].0@
            && request.headers@[i].1@ == plain_value(invocation.headers@[i].1@) by {
            assert(all[i] == sent[i]);
        }
        text::law_case_does_not_matter("host"@, "host"@);
        if names_a_host(sent) {
            let i = choose|i: int|
                0 <= i < sent.len() && text::same_ignoring_case((#[trigger] sent[i]).0, "host"@);
            assert(all[i].0 == request.headers@[i].0@);
            assert(text::same_ignoring_case(request.headers@[i].0@, "host"@));
        } else {
            let last = all.len() - 1;
            assert(all[last] == ("host"@, invocation.target.service@));
            assert(text::same_ignoring_case(request.headers@[last].0@, "host"@));
            assert forall|i: int|
                0 <= i < invocation.headers@.len() implies !text::same_ignoring_case(
                (#[trigger] invocation.headers@[i]).0@,
                "host"@,
            ) by {
                assert(!text::same_ignoring_case(sent[i].0, "host"@));
            }
        }
    }
}

/// A value is sent whole or not at all: where it cannot be sent as plain text, it is
/// left empty.
pub proof fn law_values_are_sent_whole(value: Seq<char>)
    ensures
        plain_value(value).len() == 0 || plain_value(value).len() == vstd::utf8::encode_utf8(
            value,
        ).len(),
        ({
            let bytes = vstd::utf8::encode_utf8(value);
            exists|i: int| #![trigger bytes[i]]
                0 <= i < bytes.len() && !(bytes[i] == 9 || 32 <= bytes[i] <= 126)
        }) ==> plain_value(value).len() == 0,
{
    let bytes = vstd::utf8::encode_utf8(value);
    if exists|i: int|
        0 <= i < bytes.len() && !((#[trigger] bytes[i]) == 9 || 32 <= bytes[i] <= 126) {
        let i = choose|i: int|
            0 <= i < bytes.len() && !((#[trigger] bytes[i]) == 9 || 32 <= bytes[i] <= 126);
        assert(!web::is_plain_byte(bytes[i]));
    }
}

/// A value of visible ASCII characters and tabs is sent as it is.
pub proof fn law_plain_values_are_sent(value: Seq<char>)
    requires
        forall|i: int|
            0 <= i < value.len() ==> (#[trigger] value[i] == '\t' || ' ' <= value[i] <= '~'),
    ensures
        plain_value(value) == value,
{
    let bytes = vstd::utf8::encode_utf8(value);
    assert(vstd::utf8::is_ascii_chars(value)) by {
        assert forall|i: int| 0 <= i < value.len() implies '\0' <= #[trigger] value[i]
            <= '\u{7f}' by {
            assert(value[i] == '\t' || ' ' <= value[i] <= '~');
        }
    }
    vstd::utf8::is_ascii_chars_encode_utf8(value);
    assert forall|i: int| 0 <= i < bytes.len() implies web::is_plain_byte(#[trigger] bytes[i]) by {
        assert(value[i] == '\t' || ' ' <= value[i] <= '~');
        assert(bytes[i] == value[i] as u8);
    }
    assert forall|i: int| 0 <= i < value.len() implies plain_value(value)[i]
        == #[trigger] value[i] by {
        assert(value[i] == '\t' || ' ' <= value[i] <= '~');
        assert(bytes[i] == value[i] as u8);
    }
    assert(plain_value(value) =~= value);
}

/// A count goes up by one, and begins again only where it can go no further.
pub proof fn law_counts_go_up(count: usize)
    ensures
        count < usize::MAX ==> one_more(count) == count + 1,
        one_more(count) == 0 <==> count == usize::MAX,
{
}

/// A digest is told exactly where some file is named after it: its extension is
/// `wasm`, and the rest of its name is read as a digest. The files are gone through
/// one by one.
pub proof fn law_digests_are_those_of_the_files(files: Seq<ArtifactFile>, digest: Seq<char>)
    ensures
        named_digests(files).contains(digest) <==> exists|i: int|
            0 <= i < files.len() && (#[trigger] files[i]).is_digest && files[i].extension is Some
                && files[i].extension->0@ == "wasm"@ && files[i].stem is Some && digest
                == "sha256:"@ + files[i].stem->0@,
        named_digests(files).len() <= files.len(),
    decreases files.len(),
{
    if files.len() > 0 {
        let front = files.drop_last();
        let at = files.len() - 1;
        law_digests_are_those_of_the_files(front, digest);
        let before = named_digests(front);
        let all = named_digests(files);
        if before.contains(digest) {
            let k = choose|k: int| 0 <= k < before.len() && before[k] == digest;
            assert(all[k] == digest);
            let i = choose|i: int|
                0 <= i < front.len() && (#[trigger] front[i]).is_digest && front[i].extension is Some
                    && front[i].extension->0@ == "wasm"@ && front[i].stem is Some && digest
                    == "sha256:"@ + front[i].stem->0@;
            assert(files[i] == front[i]);
        } else {
            assert forall|i: int|
                0 <= i < files.len() && (#[trigger] files[i]).is_digest
                    && files[i].extension is Some && files[i].extension->0@ == "wasm"@
                    && files[i].stem is Some && digest == "sha256:"@ + files[i].stem->0@ implies i
                == at by {
                if i < at {
                    assert(front[i] == files[i]);
                }
            }
            if all.contains(digest) {
                let k = choose|k: int| 0 <= k < all.len() && all[k] == digest;
                if k < before.len() {
                    assert(before[k] == digest);
                }
                assert(files[at] == files.last());
            } else if all.len() > before.len() {
                assert(all[all.len() - 1] != digest);
            }
        }
    }
}

/// Only slashes are taken from the end of an endpoint, and all that stand there.
pub proof fn law_endpoints_lose_their_last_slashes(s: Seq<char>)
    ensures
        without_slashes(s).len() <= s.len(),
        without_slashes(s) == s.take(without_slashes(s).len() as int),
        without_slashes(s).len() > 0 ==> without_slashes(s).last() != '/',
        forall|i: int| without_slashes(s).len() <= i < s.len() ==> #[trigger] s[i] == '/',
    decreases s.len(),
{
    if s.len() > 0 && s.last() == '/' {
        let front = s.drop_last();
        law_endpoints_lose_their_last_slashes(front);
        let kept = without_slashes(front).len() as int;
        assert(front.take(kept) =~= s.take(kept));
        assert forall|i: int| kept <= i < s.len() implies #[trigger] s[i] == '/' by {
            if i < front.len() {
                assert(front[i] == s[i]);
            }
        }
    } else {
        assert(s.take(s.len() as int) =~= s);
    }
}

/// A garage listens to this machine alone.
pub proof fn law_garages_listen_to_this_machine(
    listen: TcpEndpoint,
    checked: Result<(), Failure>,
)
    requires
        call_ensures(check_listener, (&listen,), checked),
    ensures
        checked is Ok <==> match listen {
            TcpEndpoint::V4 { address, .. } => 0x7f00_0000 <= address <= 0x7fff_ffff,
            TcpEndpoint::V6 { long_address, .. } => long_address == 1,
        },
        checked matches Err(failure) ==> failure.says(
            "Garage listener must be loopback-only in v0.9"@,
        ),
{
}

/// A garage executes what is posted to one path and tells of itself to who gets
/// another, and knows no other question.
pub proof fn law_garages_know_two_questions(method: &str, path: &str, asked: GarageRoute)
    requires
        call_ensures(route, (method, path), asked),
    ensures
        asked is Execute <==> method@ == "POST"@ && path@ == "/v1/execute"@,
        asked is Runtime <==> method@ == "GET"@ && path@ == "/v1/runtime"@,
{
    reveal_strlit("POST");
    reveal_strlit("GET");
    assert("POST"@.len() == 4);
    assert("GET"@.len() == 3);
}

/// The lanes that run and those that are free are all the lanes there are, as long
/// as no more run than there are.
pub proof fn law_lanes_are_told(snapshot: SchedulerSnapshot, report: LaneReport)
    requires
        call_ensures(lane_report, (&snapshot,), report),
    ensures
        report.total_lanes == snapshot.lane_count,
        report.active_lanes == snapshot.running,
        report.queue_depth == snapshot.queued,
        snapshot.running <= snapshot.lane_count ==> report.active_lanes + report.free_lanes
            == report.total_lanes,
        snapshot.running > snapshot.lane_count ==> report.free_lanes == 0,
{
}

/// An artifact that is not here is fetched exactly where there is a store, and
/// from the one that the request names before the garage's own.
pub proof fn law_artifacts_are_fetched_from_the_named_store(
    digest: &str,
    requested: Option<String>,
    own: &str,
    has_store: bool,
    source: Result<String, Failure>,
)
    requires
        call_ensures(acquisition_source, (digest, &requested, own, has_store), source),
    ensures
        source is Ok <==> has_store,
        source matches Err(failure) ==> failure.says(
            "artifact "@ + digest@ + " is not local and no Paddock is configured"@,
        ),
        source is Ok && requested is Some ==> source->Ok_0@ == requested->0@,
        source is Ok && requested is None ==> source->Ok_0@ == own@,
{
}

/// Each thing that a garage does is counted by itself: one count goes up by one,
/// and the others stay.
pub proof fn law_counts_are_apart(
    fetching: &mut GarageCounters,
    preparing: &mut GarageCounters,
    executing: &mut GarageCounters,
)
    requires
        call_ensures(GarageCounters::acquired, (fetching,), ()),
        call_ensures(GarageCounters::preparing, (preparing,), ()),
        call_ensures(GarageCounters::executing, (executing,), ()),
    ensures
        old(fetching).remote_acquisitions < usize::MAX ==> *final(fetching) == (GarageCounters {
            remote_acquisitions: (old(fetching).remote_acquisitions + 1) as usize,
            ..*old(fetching)
        }),
        old(preparing).preparations < usize::MAX ==> *final(preparing) == (GarageCounters {
            preparations: (old(preparing).preparations + 1) as usize,
            ..*old(preparing)
        }),
        old(executing).executions < usize::MAX ==> *final(executing) == (GarageCounters {
            executions: (old(executing).executions + 1) as usize,
            ..*old(executing)
        }),
{
}

/// A prepared artifact was either compiled or restored, and is counted as one of
/// the two; it is counted as published exactly where publishing took some time.
pub proof fn law_preparations_are_counted(
    counters: &mut GarageCounters,
    report: PreparationReport,
)
    requires
        call_ensures(GarageCounters::prepared, (counters, &report), ()),
        old(counters).compilations < usize::MAX,
        old(counters).warm_restores < usize::MAX,
        old(counters).cache_publications < usize::MAX,
    ensures
        final(counters).compilations + final(counters).warm_restores == old(
            counters,
        ).compilations + old(counters).warm_restores + 1,
        final(counters).compilations > old(counters).compilations <==> report.source
            == CompiledCacheSource::ColdCompiled,
        final(counters).warm_restores > old(counters).warm_restores <==> report.source
            == CompiledCacheSource::WarmRestored,
        report.cache_publication_duration.nanos > 0 ==> final(counters).cache_publications == old(
            counters,
        ).cache_publications + 1,
        report.cache_publication_duration.nanos == 0 ==> final(counters).cache_publications == old(
            counters,
        ).cache_publications,
        final(counters).remote_acquisitions == old(counters).remote_acquisitions,
        final(counters).preparations == old(counters).preparations,
        final(counters).executions == old(counters).executions,
{
}

/// One leads and the others wait: who asks again for an artifact before it is ready
/// is never told to lead, and who was told that it is ready is told so again. Others
/// do not notice.
pub proof fn law_one_leads_and_the_others_wait(
    table: &mut WarmupTable,
    later: &mut WarmupTable,
    digest: &str,
    other: Seq<char>,
    turn: WarmupTurn,
    next: WarmupTurn,
)
    requires
        call_ensures(WarmupTable::join, (table, digest), turn),
        *final(table) == *old(later),
        call_ensures(WarmupTable::join, (later, digest), next),
        other != digest@,
    ensures
        turn is Lead <==> old(table).state_of(digest@) is Unknown,
        turn is Lead || turn is Wait ==> next is Wait,
        turn matches WarmupTurn::Ready(report) ==> next == WarmupTurn::Ready(report),
        final(later).state_of(other) == old(table).state_of(other),
{
}

/// When the one who leads is done, the next who asks is told what came of it: that
/// the artifact is ready, with the very report, or to lead in turn.
pub proof fn law_those_who_wait_are_told(
    table: &mut WarmupTable,
    later: &mut WarmupTable,
    digest: &str,
    other: Seq<char>,
    outcome: Result<WarmupReport, String>,
    next: WarmupTurn,
)
    requires
        call_ensures(WarmupTable::complete, (table, digest, outcome), ()),
        *final(table) == *old(later),
        call_ensures(WarmupTable::join, (later, digest), next),
        other != digest@,
    ensures
        outcome matches Ok(report) ==> next == WarmupTurn::Ready(report),
        outcome is Err ==> next is Lead,
        final(later).state_of(other) == old(table).state_of(other),
{
}

/// At least one preparation may run, and as many as are wanted.
pub proof fn law_something_may_be_prepared(wanted: usize, budget: usize)
    requires
        call_ensures(preparation_budget, (wanted,), budget),
    ensures
        budget >= 1,
        wanted >= 1 ==> budget == wanted,
        wanted == 0 ==> budget == 1,
{
}

/// An artifact that is ready already took no time but that of looking, and was
/// neither compiled nor published.
pub proof fn law_ready_artifacts_take_no_time(duration: Span, report: WarmupReport)
    requires
        call_ensures(already_hot, (duration,), report),
    ensures
        report.duration == duration,
        report.preparation.readiness is Hot,
        report.preparation.source is WarmRestored,
        report.preparation.compile_duration.nanos == 0,
        report.preparation.restore_duration.nanos == 0,
        report.preparation.cache_publication_duration.nanos == 0,
{
}

/// A request for an artifact that could not be made ready is not accepted, and is
/// told why.
pub proof fn law_unavailable_artifacts_are_told(
    garage: Garage,
    execution_id: &str,
    error: &str,
    response: RemoteExecutionResponse,
)
    requires
        call_ensures(Garage::unavailable, (&garage, execution_id, error), response),
    ensures
        !response.accepted,
        !response.started,
        response.error == Some(RemoteExecutionError::ArtifactUnavailable),
        response.error_message is Some && response.error_message->0@ == error@,
        response.execution_id@ == execution_id@,
        response.garage_id@ == garage.id@,
        response.guest_status is None,
{
}

/// The digests of a garage's files are told in order and each once.
pub proof fn law_local_digests_are_told_once(files: Vec<ArtifactFile>, digests: Vec<String>)
    requires
        call_ensures(local_digests, (&files,), digests),
    ensures
        forall|i: int, j: int|
            0 <= i < j < digests@.len() ==> text::text_before(
                (#[trigger] digests@[i])@,
                (#[trigger] digests@[j])@,
            ),
        forall|k: int|
            0 <= k < digests@.len() ==> named_digests(files@).contains(
                (#[trigger] digests@[k])@,
            ),
        forall|k: int|
            0 <= k < named_digests(files@).len() ==> text::texts(digests@).contains(
                #[trigger] named_digests(files@)[k],
            ),
{
    let told = text::texts(digests@);
    assert(told.len() == digests@.len());
    assert forall|i: int, j: int| 0 <= i < j < digests@.len() implies text::text_before(
        (#[trigger] digests@[i])@,
        (#[trigger] digests@[j])@,
    ) by {
        assert(text::text_before(told[i], told[j]));
    }
    assert forall|k: int| 0 <= k < digests@.len() implies named_digests(files@).contains(
        (#[trigger] digests@[k])@,
    ) by {
        assert(told.contains(told[k]));
    }
    assert forall|k: int| 0 <= k < named_digests(files@).len() implies told.contains(
        #[trigger] named_digests(files@)[k],
    ) by {
        assert(named_digests(files@).contains(named_digests(files@)[k]));
    }
}

} // verus!

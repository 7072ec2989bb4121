//! A local node: one prepared artifact and a scheduler that executes it.

use std::sync::Arc;
use std::time::{Instant, SystemTime};

use vstd::prelude::*;

use crate::artifact::{ArtifactFormat, ArtifactSource, FoundFile, WasmArtifact};
use crate::cache::HostPlatform;
use crate::clock::Span;
use crate::failure::Failure;
use crate::lanes::{InTurn, LaneHost};
use crate::outcome::{CancellationToken, ExecutionStatus, RuntimeExecutionResult};
use crate::request::ExecutionRequest;
use crate::runtime::{EpochClock, PitRuntime, PreparedArtifact};
use crate::scheduler::{
    ExecutionEvent, ExecutionId, ExecutionReport, LaneId, PitScheduler, SchedulerRun,
    SchedulerSnapshot,
};
use crate::text::{concat2, concat3, same};
use crate::{artifact, outcome, request, runtime, scheduler, text};

verus! {

/// What a project says of how its artifact is run.
#[derive(Debug)]
pub struct RuntimeSpec {
    pub abi: String,
    pub entrypoint: String,
}

/// Why a project's artifact cannot be run here.
pub open spec fn spec_problem(spec: RuntimeSpec) -> Option<Seq<char>> {
    if spec.abi@ == "wasi-preview1"@ {
        if spec.entrypoint@ == runtime::preview1_entrypoint() {
            None
        } else {
            Some(
                "unsupported WASI Preview 1 entrypoint '"@ + spec.entrypoint@ + "'; expected "@
                    + runtime::preview1_entrypoint(),
            )
        }
    } else if spec.abi@ == "wasi-preview2"@ {
        if spec.entrypoint@ == runtime::preview2_entrypoint() {
            None
        } else {
            Some(
                "unsupported WASI Preview 2 entrypoint '"@ + spec.entrypoint@ + "'; expected "@
                    + runtime::preview2_entrypoint(),
            )
        }
    } else {
        Some(
            "unsupported runtime ABI '"@ + spec.abi@
                + "'; this PitBox supports wasi-preview1 and wasi-preview2"@,
        )
    }
}

/// Checks what a project says of how its artifact is run.
pub fn validate_runtime_spec(spec: &RuntimeSpec) -> (result: Result<(), Failure>)
    ensures
        request::checked(result, spec_problem(*spec)),
{
    if same(spec.abi.as_str(), "wasi-preview1") {
        if same(spec.entrypoint.as_str(), "_start") {
            return Ok(());
        }
        let front = concat3(
            "unsupported WASI Preview 1 entrypoint '",
            spec.entrypoint.as_str(),
            "'; expected ",
        );
        return Err(Failure::of(concat2(front.as_str(), "_start")));
    }
    if same(spec.abi.as_str(), "wasi-preview2") {
        if same(spec.entrypoint.as_str(), "wasi:cli/command") {
            return Ok(());
        }
        let front = concat3(
            "unsupported WASI Preview 2 entrypoint '",
            spec.entrypoint.as_str(),
            "'; expected ",
        );
        return Err(Failure::of(concat2(front.as_str(), "wasi:cli/command")));
    }
    Err(
        Failure::of(
            concat3(
                "unsupported runtime ABI '",
                spec.abi.as_str(),
                "'; this PitBox supports wasi-preview1 and wasi-preview2",
            ),
        ),
    )
}

/// The entrypoints that are admitted for the two kinds of artifacts are those
/// that an artifact is executed with.
pub proof fn law_admitted_specs_can_be_executed(spec: RuntimeSpec)
    requires
        spec_problem(spec) is None,
    ensures
        spec.entrypoint@ == runtime::preview1_entrypoint() || spec.entrypoint@
            == runtime::preview2_entrypoint(),
{
}

/// One execution, with what the scheduler and the runtime say of it.
#[derive(Debug)]
pub struct ExecutionResult {
    pub execution_id: ExecutionId,
    pub lane_id: LaneId,
    pub status: ExecutionStatus,
    pub exit_code: Option<i32>,
    pub stdout: Vec<u8>,
    pub stderr: Vec<u8>,
    pub started: SystemTime,
    pub queued_for: Span,
    pub duration: Span,
    pub error: Option<String>,
}

/// What came of a batch.
#[derive(Debug)]
pub struct NodeRunReport {
    pub artifact_path: String,
    pub execution_lanes: usize,
    pub requested: usize,
    pub completed: usize,
    pub failed: usize,
    pub timed_out: usize,
    pub cancelled: usize,
    pub memory_limit_exceeded: usize,
    pub total_duration: Span,
    pub peak_active: usize,
    pub snapshot: SchedulerSnapshot,
    pub events: Vec<ExecutionEvent>,
    pub executions: Vec<ExecutionResult>,
}

/// Why a returned result counts as a failure: its error, or else the name of
/// its status. A completed execution is none.
pub open spec fn failure_of(result: RuntimeExecutionResult) -> Option<Seq<char>> {
    if result.status == ExecutionStatus::Completed {
        None
    } else {
        match result.error {
            Some(error) => Some(error@),
            None => Some(result.status.spelled()),
        }
    }
}

/// Why a returned result counts as a failure, if it does.
pub fn classify(result: &RuntimeExecutionResult) -> (failure: Option<String>)
    ensures
        text::optional_text(failure) == failure_of(*result),
{
    match result.status {
        ExecutionStatus::Completed => None,
        _ => match &result.error {
            Some(error) => Some(error.clone()),
            None => Some(result.status.name()),
        },
    }
}

/// Whether an execution of the node tells what the scheduler and the runtime
/// said. An execution that returned no value failed in the runtime.
pub open spec fn tells(
    execution: ExecutionResult,
    scheduled: scheduler::ExecutionResult<RuntimeExecutionResult>,
) -> bool {
    &&& execution.execution_id == scheduled.report.execution_id
    &&& execution.lane_id == scheduled.report.lane_id
    &&& execution.queued_for == scheduled.report.queued_for
    &&& execution.duration == scheduled.report.duration
    &&& match scheduled.value {
        Some(value) => {
            &&& execution.status == value.status
            &&& execution.exit_code == value.exit_code
            &&& execution.stdout == value.stdout
            &&& execution.stderr == value.stderr
            &&& execution.started == value.started
            &&& execution.error == value.error
        },
        None => {
            &&& execution.status == ExecutionStatus::RuntimeError
            &&& execution.exit_code is None
            &&& execution.stdout@.len() == 0
            &&& execution.stderr@.len() == 0
            &&& execution.started == scheduled.report.started
            &&& execution.error == scheduled.report.error
        },
    }
}

/// What the node says of an execution.
pub fn execution_result(scheduled: scheduler::ExecutionResult<RuntimeExecutionResult>) -> (execution:
    ExecutionResult)
    ensures
        tells(execution, scheduled),
{
    let report = scheduled.report;
    match scheduled.value {
        Some(value) => ExecutionResult {
            execution_id: report.execution_id,
            lane_id: report.lane_id,
            status: value.status,
            exit_code: value.exit_code,
            stdout: value.stdout,
            stderr: value.stderr,
            started: value.started,
            queued_for: report.queued_for,
            duration: report.duration,
            error: value.error,
        },
        None => ExecutionResult {
            execution_id: report.execution_id,
            lane_id: report.lane_id,
            status: ExecutionStatus::RuntimeError,
            exit_code: None,
            stdout: Vec::new(),
            stderr: Vec::new(),
            started: report.started,
            queued_for: report.queued_for,
            duration: report.duration,
            error: report.error,
        },
    }
}

/// How many executions have one of the given statuses.
pub open spec fn with_status(
    executions: Seq<ExecutionResult>,
    wanted: spec_fn(ExecutionStatus) -> bool,
) -> nat
    decreases executions.len(),
{
    if executions.len() == 0 {
        0
    } else {
        with_status(executions.drop_last(), wanted) + if wanted(executions.last().status) {
            1nat
        } else {
            0nat
        }
    }
}

/// Exactly this status.
pub open spec fn exactly(status: ExecutionStatus) -> spec_fn(ExecutionStatus) -> bool {
    |other: ExecutionStatus| other == status
}

/// The statuses that count as failed.
pub open spec fn is_failed() -> spec_fn(ExecutionStatus) -> bool {
    |status: ExecutionStatus|
        status == ExecutionStatus::GuestExitNonZero || status == ExecutionStatus::GuestTrap
            || status == ExecutionStatus::MemoryLimitExceeded || status
            == ExecutionStatus::RuntimeError
}

/// Whether the counts of a report are those of its executions.
pub open spec fn counted(report: NodeRunReport) -> bool {
    let executions = report.executions@;
    &&& report.completed == with_status(executions, exactly(ExecutionStatus::Completed))
    &&& report.failed == with_status(executions, is_failed())
    &&& report.timed_out == with_status(executions, exactly(ExecutionStatus::TimedOut))
    &&& report.cancelled == with_status(executions, exactly(ExecutionStatus::Cancelled))
    &&& report.memory_limit_exceeded == with_status(
        executions,
        exactly(ExecutionStatus::MemoryLimitExceeded),
    )
}

proof fn lemma_statuses_add_up(executions: Seq<ExecutionResult>)
    ensures
        with_status(executions, exactly(ExecutionStatus::Completed)) + with_status(
            executions,
            is_failed(),
        ) + with_status(executions, exactly(ExecutionStatus::TimedOut)) + with_status(
            executions,
            exactly(ExecutionStatus::Cancelled),
        ) == executions.len(),
        with_status(executions, exactly(ExecutionStatus::MemoryLimitExceeded)) <= with_status(
            executions,
            is_failed(),
        ),
    decreases executions.len(),
{
    if executions.len() > 0 {
        lemma_statuses_add_up(executions.drop_last());
    }
}

/// Every execution is counted once: it completed, failed, timed out or was
/// cancelled. Those that exceeded their memory are among the failed ones.
pub proof fn law_executions_are_counted_once(report: NodeRunReport)
    requires
        counted(report),
    ensures
        report.completed + report.failed + report.timed_out + report.cancelled
            == report.executions@.len(),
        report.memory_limit_exceeded <= report.failed,
{
    lemma_statuses_add_up(report.executions@);
}

/// The path that a report shows for an artifact.
pub open spec fn shown_path(artifact: WasmArtifact) -> Seq<char> {
    match artifact.path() {
        Some(path) => path,
        None => "<in-memory-artifact>"@,
    }
}

proof fn lemma_successes_complete(
    results: Seq<scheduler::ExecutionResult<RuntimeExecutionResult>>,
    executions: Seq<ExecutionResult>,
)
    requires
        results.len() == executions.len(),
        forall|i: int| 0 <= i < results.len() ==> tells(#[trigger] executions[i], results[i]),
        forall|i: int|
            0 <= i < results.len() ==> ((#[trigger] results[i]).report.success <==> (
            results[i].value matches Some(value) && value.status == ExecutionStatus::Completed)),
    ensures
        scheduler::successes(results) == with_status(
            executions,
            exactly(ExecutionStatus::Completed),
        ),
    decreases results.len(),
{
    if results.len() > 0 {
        let (r, e) = (results.drop_last(), executions.drop_last());
        assert forall|i: int| 0 <= i < r.len() implies tells(#[trigger] e[i], r[i]) by {
            assert(tells(executions[i], results[i]));
        }
        assert forall|i: int| 0 <= i < r.len() implies ((#[trigger] r[i]).report.success <==> (
        r[i].value matches Some(value) && value.status == ExecutionStatus::Completed)) by {
            assert(results[i] == r[i]);
        }
        lemma_successes_complete(r, e);
        let last = results.len() - 1;
        assert(tells(executions[last], results[last]));
        assert(results[last].report.success <==> (results[last].value matches Some(value)
            && value.status == ExecutionStatus::Completed));
    }
}

/// The report on a batch, out of what the scheduler says of it.
pub fn summarize(
    artifact: &WasmArtifact,
    run: SchedulerRun<RuntimeExecutionResult>,
    execution_lanes: usize,
    requested: usize,
    total_duration: Span,
) -> (report: NodeRunReport)
    ensures
        report.artifact_path@ == shown_path(*artifact),
        report.execution_lanes == execution_lanes,
        report.requested == requested,
        report.total_duration == total_duration,
        report.peak_active == run.snapshot.peak_active,
        report.snapshot == run.snapshot,
        report.events == run.events,
        report.executions@.len() == run.results@.len(),
        forall|i: int|
            0 <= i < run.results@.len() ==> tells(
                #[trigger] report.executions@[i],
                run.results@[i],
            ),
        counted(report),
        report.completed + report.failed + report.timed_out + report.cancelled
            == run.results@.len(),
{
    let ghost given = run.results@;
    let peak_active = run.snapshot.peak_active;
    let total = run.results.len();
    let mut results = run.results;
    let mut executions: Vec<ExecutionResult> = Vec::new();
    let mut completed: usize = 0;
    let mut failed: usize = 0;
    let mut timed_out: usize = 0;
    let mut cancelled: usize = 0;
    let mut memory_limit_exceeded: usize = 0;
    let ghost mut taken: int = 0;
    while results.len() > 0
        invariant
            0 <= taken <= given.len(),
            given.len() == total,
            results@ == given.skip(taken),
            executions@.len() == taken,
            forall|i: int| 0 <= i < taken ==> tells(#[trigger] executions@[i], given[i]),
            completed == with_status(executions@, exactly(ExecutionStatus::Completed)),
            failed == with_status(executions@, is_failed()),
            timed_out == with_status(executions@, exactly(ExecutionStatus::TimedOut)),
            cancelled == with_status(executions@, exactly(ExecutionStatus::Cancelled)),
            memory_limit_exceeded == with_status(
                executions@,
                exactly(ExecutionStatus::MemoryLimitExceeded),
            ),
        decreases results@.len(),
    {
        let ghost before = executions@;
        let execution = execution_result(results.remove(0));
        proof {
            lemma_statuses_add_up(before);
            assert(before.push(execution).drop_last() =~= before);
        }
        match execution.status {
            ExecutionStatus::Completed => {
                completed = completed + 1;
            },
            ExecutionStatus::TimedOut => {
                timed_out = timed_out + 1;
            },
            ExecutionStatus::Cancelled => {
                cancelled = cancelled + 1;
            },
            ExecutionStatus::MemoryLimitExceeded => {
                failed = failed + 1;
                memory_limit_exceeded = memory_limit_exceeded + 1;
            },
            _ => {
                failed = failed + 1;
            },
        }
        executions.push(execution);
        proof {
            assert(given.skip(taken).remove(0) =~= given.skip(taken + 1));
            taken = taken + 1;
        }
    }
    proof {
        lemma_statuses_add_up(executions@);
    }
    let artifact_path = match artifact.source() {
        ArtifactSource::Path(path) => path.clone(),
        ArtifactSource::Bytes(_) => "<in-memory-artifact>".to_owned(),
    };
    NodeRunReport {
        artifact_path,
        execution_lanes,
        requested,
        completed,
        failed,
        timed_out,
        cancelled,
        memory_limit_exceeded,
        total_duration,
        peak_active,
        snapshot: run.snapshot,
        events: run.events,
        executions,
    }
}

/// Why a batch is not run at all.
pub open spec fn batch_problem(
    prepared: PreparedArtifact,
    request: ExecutionRequest,
    count: usize,
) -> Option<Seq<char>> {
    match request::request_problem(request) {
        Some(problem) => Some(problem),
        None => if request.artifact.identity() != prepared.of().identity() {
            Some(
                "execution request artifact '"@ + request.artifact.identity()
                    + "' does not match prepared artifact '"@ + prepared.of().identity() + "'"@,
            )
        } else if count == 0 {
            Some("execution count must be greater than zero"@)
        } else {
            None
        },
    }
}

/// Checks that a batch can be run at all.
pub fn admit_batch(prepared: &PreparedArtifact, request: &ExecutionRequest, count: usize) -> (result:
    Result<(), Failure>)
    ensures
        request::checked(result, batch_problem(*prepared, *request, count)),
{
    match request.validate() {
        Ok(()) => {},
        Err(failure) => {
            return Err(failure);
        },
    }
    let wanted = request.artifact.id().as_str();
    let here = prepared.artifact().id().as_str();
    if !same(wanted, here) {
        let mut message = concat2("execution request artifact '", wanted);
        message = concat2(message.as_str(), "' does not match prepared artifact '");
        message = concat2(message.as_str(), here);
        message = concat2(message.as_str(), "'");
        return Err(Failure::of(message));
    }
    if count == 0 {
        return Err(Failure::new("execution count must be greater than zero"));
    }
    Ok(())
}

/// What comes of one execution of a request.
pub open spec fn one_executed(
    prepared: &PreparedArtifact,
    request: &ExecutionRequest,
    token: &CancellationToken,
    result: Result<RuntimeExecutionResult, String>,
) -> bool {
    match runtime::admission_problem(*prepared, *request) {
        Some(problem) => result matches Err(error) && error@ == problem,
        None => result matches Ok(executed) && executed.fits() && runtime::executed_as(
            runtime::run_for(*prepared, *request, *token),
            executed.parts(),
            executed.stdout@,
            executed.stderr@,
        ),
    }
}

/// Executes one request of a batch. What is refused is told as a text.
pub fn execute_one(
    prepared: &PreparedArtifact,
    request: &ExecutionRequest,
    cancellation: CancellationToken,
) -> (result: Result<RuntimeExecutionResult, String>)
    requires
        prepared.is_module() || prepared.is_command() || runtime::admission_problem(
            *prepared,
            *request,
        ) is Some,
    ensures
        one_executed(prepared, request, &cancellation, result),
{
    match prepared.execute(request, cancellation) {
        Ok(executed) => Ok(executed),
        Err(failure) => Err(failure.message),
    }
}

/// A local node.
pub struct PitNode {
    prepared: Arc<PreparedArtifact>,
    scheduler: PitScheduler,
    clock: EpochClock,
}

impl PitNode {
    /// The artifact that the node executes.
    pub closed spec fn executes(&self) -> PreparedArtifact {
        *self.prepared
    }

    /// The scheduler of the node.
    pub closed spec fn schedules(&self) -> PitScheduler {
        self.scheduler
    }

    /// What the epoch of the node's guests is moved on with.
    pub closed spec fn ticks_with(&self) -> EpochClock {
        self.clock
    }

    /// The artifact can be executed, its guests run in an engine whose epoch the
    /// clock moves on, and the scheduler is sound.
    pub open spec fn wf(&self) -> bool {
        &&& self.executes().is_module() || self.executes().is_command()
        &&& self.executes().runs_in() == Some(self.ticks_with().drives().0)
        &&& self.schedules().wf()
    }

    /// Prepares an artifact, for as many lanes as the host is known to have.
    pub fn from_artifact(
        artifact: WasmArtifact,
        found: FoundFile,
        platform: HostPlatform,
        detected_lanes: Option<usize>,
    ) -> (node: Result<PitNode, Failure>)
        requires
            detected_lanes != Some(0usize),
        ensures
            match node {
                Ok(node) => {
                    &&& node.wf()
                    &&& artifact.contents(found) matches Some(bytes)
                    &&& artifact::header_format(bytes) is Some
                    &&& node.executes().of().identity() == artifact.identity()
                    &&& node.executes().of().path() == artifact.path()
                    &&& node.executes().code() == bytes
                    &&& node.executes().is_command() <==> artifact::header_format(bytes) == Some(
                        ArtifactFormat::Component,
                    )
                    &&& node.schedules().next_id() == 0
                    &&& node.schedules().width() == match detected_lanes {
                        Some(lanes) => lanes as int,
                        None => 1,
                    }
                },
                Err(failure) => {
                    ||| runtime::unmade(runtime::default_controls(), None, failure)
                    ||| runtime::refused(
                        artifact.contents(found),
                        artifact.load_problem(found),
                        runtime::engine_settings(runtime::default_controls(), false, None),
                        runtime::engine_settings(runtime::default_controls(), true, None),
                        failure,
                    )
                },
            },
    {
        let runtime = match PitRuntime::new(platform) {
            Ok(runtime) => runtime,
            Err(failure) => {
                return Err(failure);
            },
        };
        let clock = runtime.epoch_clock();
        match runtime.prepare(artifact, found) {
            Ok(prepared) => Ok(
                PitNode {
                    prepared: Arc::new(prepared),
                    scheduler: PitScheduler::local(detected_lanes),
                    clock,
                },
            ),
            Err(failure) => Err(failure),
        }
    }

    /// Prepares an artifact in a file.
    pub fn from_file(
        wasm_path: &str,
        found: FoundFile,
        platform: HostPlatform,
        detected_lanes: Option<usize>,
    ) -> (node: Result<PitNode, Failure>)
        requires
            detected_lanes != Some(0usize),
        ensures
            match node {
                Ok(node) => {
                    &&& node.wf()
                    &&& found matches FoundFile::Contents(bytes)
                    &&& artifact::header_format(bytes@) is Some
                    &&& node.executes().of().identity() == "path:"@ + wasm_path@
                    &&& node.executes().of().path() == Some(wasm_path@)
                    &&& node.executes().code() == bytes@
                    &&& node.executes().is_command() <==> artifact::header_format(bytes@) == Some(
                        ArtifactFormat::Component,
                    )
                    &&& node.schedules().next_id() == 0
                    &&& node.schedules().width() == match detected_lanes {
                        Some(lanes) => lanes as int,
                        None => 1,
                    }
                },
                Err(failure) => {
                    ||| runtime::unmade(runtime::default_controls(), None, failure)
                    ||| runtime::refused(
                        artifact::file_contents(found),
                        artifact::file_problem(wasm_path@, found),
                        runtime::engine_settings(runtime::default_controls(), false, None),
                        runtime::engine_settings(runtime::default_controls(), true, None),
                        failure,
                    )
                },
            },
    {
        PitNode::from_artifact(WasmArtifact::from_path(wasm_path), found, platform, detected_lanes)
    }

    /// The artifact of the node.
    pub fn artifact(&self) -> (artifact: &WasmArtifact)
        ensures
            *artifact == self.executes().of(),
    {
        self.prepared.artifact()
    }

    /// How many lanes the node has.
    pub fn execution_lanes(&self) -> (lanes: usize)
        ensures
            lanes == self.schedules().width(),
    {
        self.scheduler.lane_count()
    }

    /// What the host moves the epoch of the node's guests on with.
    pub fn epoch_clock(&self) -> (clock: EpochClock)
        ensures
            clock.drives() == self.ticks_with().drives(),
    {
        self.clock.share()
    }

    /// Executes one request.
    pub fn execute(&mut self, request: ExecutionRequest) -> (executed: Result<
        ExecutionResult,
        Failure,
    >)
        requires
            old(self).wf(),
            old(self).schedules().next_id() < u64::MAX,
        ensures
            moved_on(old(self), final(self), request, 1),
            match batch_problem(old(self).executes(), request, 1) {
                Some(problem) => executed matches Err(failure) && failure.says(problem),
                None => executed matches Ok(execution) && exists|token: CancellationToken|
                    #[trigger]
                    execution_ran(old(self), request, token, 0, execution),
            },
    {
        self.execute_with_cancellation(request, CancellationToken::new())
    }

    /// Executes one request that can be cancelled.
    pub fn execute_with_cancellation(
        &mut self,
        request: ExecutionRequest,
        cancellation: CancellationToken,
    ) -> (executed: Result<ExecutionResult, Failure>)
        requires
            old(self).wf(),
            old(self).schedules().next_id() < u64::MAX,
        ensures
            moved_on(old(self), final(self), request, 1),
            match batch_problem(old(self).executes(), request, 1) {
                Some(problem) => executed matches Err(failure) && failure.says(problem),
                None => executed matches Ok(execution) && execution_ran(
                    old(self),
                    request,
                    cancellation,
                    0,
                    execution,
                ),
            },
    {
        match self.execute_many_with_cancellation(request, 1, cancellation, &InTurn) {
            Ok(report) => {
                let mut executions = report.executions;
                Ok(executions.remove(0))
            },
            Err(failure) => Err(failure),
        }
    }

    /// Executes one request several times on the lanes of a host.
    pub fn execute_many<H>(&mut self, request: ExecutionRequest, count: usize, host: &H) -> (ran:
        Result<NodeRunReport, Failure>) where H: LaneHost
        requires
            old(self).wf(),
            old(self).schedules().next_id() + count <= u64::MAX,
        ensures
            moved_on(old(self), final(self), request, count),
            exists|token: CancellationToken| #[trigger]
                batch_ran(old(self), request, token, count, ran),
    {
        self.execute_many_with_cancellation(request, count, CancellationToken::new(), host)
    }

    /// Executes one request several times on the lanes of a host, all of which
    /// can be cancelled together. Each execution has its own guest.
    pub fn execute_many_with_cancellation<H>(
        &mut self,
        request: ExecutionRequest,
        count: usize,
        cancellation: CancellationToken,
        host: &H,
    ) -> (ran: Result<NodeRunReport, Failure>) where H: LaneHost
        requires
            old(self).wf(),
            old(self).schedules().next_id() + count <= u64::MAX,
        ensures
            moved_on(old(self), final(self), request, count),
            batch_ran(old(self), request, cancellation, count, ran),
    {
        match admit_batch(&self.prepared, &request, count) {
            Ok(()) => {},
            Err(failure) => {
                return Err(failure);
            },
        }
        let begun = Instant::now();
        let lanes = self.scheduler.lane_count();
        let prepared = Arc::clone(&self.prepared);
        let ghost asked = request;
        let ghost token = cancellation;
        let task = move |execution_id: ExecutionId, lane_id: LaneId| -> (result: Result<
            RuntimeExecutionResult,
            String,
        >)
            ensures
                one_executed(&*prepared, &request, &cancellation, result),
            { execute_one(&*prepared, &request, cancellation.clone()) };
        let judge = |result: &RuntimeExecutionResult| -> (failure: Option<String>)
            ensures
                text::optional_text(failure) == failure_of(*result),
            { classify(result) };
        let ran = self.scheduler.run_many_classified(count, task, judge, host);
        let run = match ran {
            Ok(run) => run,
            Err(error) => {
                return Err(Failure::of(error.message()));
            },
        };
        let ghost results = run.results@;
        let ghost events = run.events@;
        proof {
            assert forall|i: int| 0 <= i < results.len() implies ((#[trigger] results[i]).report.success
                <==> (results[i].value matches Some(value) && value.status
                == ExecutionStatus::Completed)) by {
                assert(scheduler::reports(task, judge, results[i]));
            }
        }
        let report = summarize(self.prepared.artifact(), run, lanes, count, Span::since(&begun));
        proof {
            lemma_successes_complete(results, report.executions@);
            assert(scheduler::logged(
                events,
                results,
                old(self).schedules().next_id(),
                count as int,
            ));
            assert forall|i: int| 0 <= i < count implies execution_ran(
                old(self),
                asked,
                token,
                i,
                #[trigger] report.executions@[i],
            ) by {
                assert(tells(report.executions@[i], results[i]));
                assert(scheduler::reports(task, judge, results[i]));
                assert(results[i].report.lane_id.0 < old(self).schedules().width());
            }
        }
        Ok(report)
    }

    /// Executes the artifact of the node several times, with nothing but the
    /// default entrypoint.
    pub fn run<H>(&mut self, concurrency: usize, host: &H) -> (ran: Result<
        NodeRunReport,
        Failure,
    >) where H: LaneHost
        requires
            old(self).wf(),
            old(self).schedules().next_id() + concurrency <= u64::MAX,
        ensures
            final(self).wf(),
            final(self).executes() == old(self).executes(),
            if concurrency == 0 {
                ran matches Err(failure) && failure.says(
                    "execution count must be greater than zero"@,
                )
            } else {
                ran is Ok && exists|request: ExecutionRequest, token: CancellationToken|
                    {
                        &&& is_default(request, old(self).executes().of())
                        &&& moved_on(old(self), final(self), request, concurrency)
                        &&& #[trigger] batch_ran(old(self), request, token, concurrency, ran)
                    }
            },
    {
        let request = ExecutionRequest::new(self.prepared.artifact().clone());
        proof {
            reveal_strlit("_start");
            assert(!request.entrypoint@.contains('\0'));
            assert(text::texts(request.args@) =~= Seq::<Seq<char>>::empty());
            assert(text::text_pairs(request.env@) =~= Seq::<(Seq<char>, Seq<char>)>::empty());
        }
        let ghost asked = request;
        let ran = self.execute_many(request, concurrency, host);
        assert(is_default(asked, old(self).executes().of()));
        ran
    }
}

/// What comes of one execution of a batch. It has the next identifier and one of
/// the lanes. A request that the artifact does not admit fails in the runtime,
/// without a guest; any other ends as a guest may end that is run as the request
/// says, and can be cancelled with the token.
pub open spec fn execution_ran(
    node: &PitNode,
    request: ExecutionRequest,
    token: CancellationToken,
    index: int,
    execution: ExecutionResult,
) -> bool {
    let parts = (execution.status, execution.exit_code, text::optional_text(execution.error));
    &&& execution.execution_id.0 == node.schedules().next_id() + index
    &&& execution.lane_id.0 < node.schedules().width()
    &&& match runtime::admission_problem(node.executes(), request) {
        Some(problem) => {
            &&& parts == (ExecutionStatus::RuntimeError, None::<i32>, Some(problem))
            &&& execution.stdout@.len() == 0
            &&& execution.stderr@.len() == 0
        },
        None => {
            &&& outcome::consistent(parts.0, parts.1, parts.2)
            &&& runtime::executed_as(
                runtime::run_for(node.executes(), request, token),
                parts,
                execution.stdout@,
                execution.stderr@,
            )
        },
    }
}

/// Whether a node has gone on over a batch: it executes the same artifact on the
/// same lanes with the same clock, and a batch that is not refused has taken its
/// identifiers.
pub open spec fn moved_on(
    before: &PitNode,
    after: &PitNode,
    request: ExecutionRequest,
    count: usize,
) -> bool {
    &&& after.wf()
    &&& after.executes() == before.executes()
    &&& after.ticks_with() == before.ticks_with()
    &&& after.schedules().width() == before.schedules().width()
    &&& after.schedules().pool() == before.schedules().pool()
    &&& after.schedules().next_id() == before.schedules().next_id() + match batch_problem(
        before.executes(),
        request,
        count,
    ) {
        Some(_) => 0,
        None => count as int,
    }
}

/// Whether a request asks for an artifact to be executed with nothing but the
/// default entrypoint.
pub open spec fn is_default(request: ExecutionRequest, artifact: WasmArtifact) -> bool {
    &&& request.artifact.identity() == artifact.identity()
    &&& request.artifact.path() == artifact.path()
    &&& request.entrypoint@ == runtime::preview1_entrypoint()
    &&& request.args@.len() == 0
    &&& request.env@.len() == 0
    &&& request.limits.timeout is None
    &&& request.limits.memory_bytes is None
}

/// Whether events are the whole log of a batch with these executions.
pub open spec fn told(
    events: Seq<ExecutionEvent>,
    executions: Seq<ExecutionResult>,
    first: int,
    count: int,
) -> bool {
    exists|results: Seq<scheduler::ExecutionResult<RuntimeExecutionResult>>|
        {
            &&& #[trigger] scheduler::logged(events, results, first, count)
            &&& results.len() == executions.len()
            &&& forall|i: int|
                0 <= i < results.len() ==> tells(#[trigger] executions[i], results[i])
        }
}

/// What comes of a batch. One that is refused changes nothing that can be seen;
/// any other has one execution for each that was requested, in the order of the
/// identifiers, and what the scheduler counts as completed is what the node
/// counts as completed.
pub open spec fn batch_ran(
    node: &PitNode,
    request: ExecutionRequest,
    token: CancellationToken,
    count: usize,
    ran: Result<NodeRunReport, Failure>,
) -> bool {
    match batch_problem(node.executes(), request, count) {
        Some(problem) => ran matches Err(failure) && failure.says(problem),
        None => ran matches Ok(report) && {
            &&& report.requested == count
            &&& report.artifact_path@ == shown_path(node.executes().of())
            &&& report.execution_lanes == node.schedules().width()
            &&& report.executions@.len() == count
            &&& counted(report)
            &&& report.completed + report.failed + report.timed_out + report.cancelled == count
            &&& report.completed == report.snapshot.completed
            &&& report.snapshot.running == 0
            &&& report.snapshot.queued == 0
            &&& report.snapshot.completed + report.snapshot.failed == count
            &&& report.peak_active == report.snapshot.peak_active
            &&& 1 <= report.peak_active <= count
            &&& report.peak_active <= node.schedules().width()
            &&& report.snapshot.lanes@.len() == node.schedules().width()
            &&& forall|a: int|
                0 <= a < report.snapshot.lanes@.len()
                    ==> #[trigger] report.snapshot.lanes@[a] is Free
            &&& forall|i: int|
                0 <= i < count ==> execution_ran(
                    node,
                    request,
                    token,
                    i,
                    #[trigger] report.executions@[i],
                )
            &&& told(report.events@, report.executions@, node.schedules().next_id(), count as int)
        },
    }
}

/// An artifact is admitted exactly where it is for one of the two interfaces and
/// names that interface's own entrypoint.
pub proof fn law_two_interfaces_are_admitted(spec: RuntimeSpec, result: Result<(), Failure>)
    requires
        call_ensures(validate_runtime_spec, (&spec,), result),
    ensures
        result is Ok <==> (spec.abi@ == "wasi-preview1"@ && spec.entrypoint@ == "_start"@) || (
        spec.abi@ == "wasi-preview2"@ && spec.entrypoint@ == "wasi:cli/command"@),
        spec.abi@ == "wasi-preview1"@ && result is Err ==> result->Err_0.says(
            "unsupported WASI Preview 1 entrypoint '"@ + spec.entrypoint@ + "'; expected "@
                + "_start"@,
        ),
        spec.abi@ == "wasi-preview2"@ && result is Err ==> result->Err_0.says(
            "unsupported WASI Preview 2 entrypoint '"@ + spec.entrypoint@ + "'; expected "@
                + "wasi:cli/command"@,
        ),
        spec.abi@ != "wasi-preview1"@ && spec.abi@ != "wasi-preview2"@ ==> result is Err
            && result->Err_0.says(
            "unsupported runtime ABI '"@ + spec.abi@
                + "'; this PitBox supports wasi-preview1 and wasi-preview2"@,
        ),
{
    reveal_strlit("wasi-preview1");
    reveal_strlit("wasi-preview2");
    assert("wasi-preview1"@[12] == '1');
    assert("wasi-preview2"@[12] == '2');
}

/// An execution failed exactly where it did not complete, and why is told by its
/// error or else by its status.
pub proof fn law_only_completed_executions_succeed(
    result: RuntimeExecutionResult,
    failure: Option<String>,
)
    requires
        call_ensures(classify, (&result,), failure),
    ensures
        failure is None <==> result.status is Completed,
        failure is Some && result.error is Some ==> failure->0@ == result.error->0@,
        failure is Some && result.error is None ==> failure->0@ == result.status.spelled(),
{
}

/// What the scheduler tells of an execution is told on: what it came to, where it
/// came to something, and otherwise that the runtime failed, and why.
pub proof fn law_scheduled_executions_are_told(
    scheduled: scheduler::ExecutionResult<RuntimeExecutionResult>,
    execution: ExecutionResult,
)
    requires
        call_ensures(execution_result, (scheduled,), execution),
    ensures
        execution.execution_id == scheduled.report.execution_id,
        execution.lane_id == scheduled.report.lane_id,
        execution.queued_for == scheduled.report.queued_for,
        execution.duration == scheduled.report.duration,
        scheduled.value matches Some(value) ==> execution.status == value.status
            && execution.exit_code == value.exit_code && execution.stdout == value.stdout
            && execution.stderr == value.stderr && execution.error == value.error
            && execution.started == value.started,
        scheduled.value is None ==> execution.status is RuntimeError && execution.exit_code is None
            && execution.stdout@.len() == 0 && execution.stderr@.len() == 0 && execution.error
            == scheduled.report.error,
{
}

proof fn lemma_with_status(
    executions: Seq<ExecutionResult>,
    wanted: spec_fn(ExecutionStatus) -> bool,
)
    ensures
        with_status(executions, wanted) == executions.filter(
            |execution: ExecutionResult| wanted(execution.status),
        ).len(),
    decreases executions.len(),
{
    let keep = |execution: ExecutionResult| wanted(execution.status);
    reveal(Seq::filter);
    if executions.len() > 0 {
        lemma_with_status(executions.drop_last(), wanted);
        assert(executions.filter(keep).len() == executions.drop_last().filter(keep).len() + if wanted(
            executions.last().status,
        ) {
            1int
        } else {
            0int
        });
    }
}

/// The numbers of a report are those of its executions: those that completed, that
/// ran out of time, that were cancelled, and all others as failed; those that ran
/// out of memory are told once more by themselves.
pub proof fn law_reports_count_their_executions(
    artifact: WasmArtifact,
    run: SchedulerRun<RuntimeExecutionResult>,
    execution_lanes: usize,
    requested: usize,
    total_duration: Span,
    report: NodeRunReport,
)
    requires
        call_ensures(
            summarize,
            (&artifact, run, execution_lanes, requested, total_duration),
            report,
        ),
    ensures
        report.executions@.len() == run.results@.len(),
        report.completed == report.executions@.filter(
            |execution: ExecutionResult| execution.status is Completed,
        ).len(),
        report.timed_out == report.executions@.filter(
            |execution: ExecutionResult| execution.status is TimedOut,
        ).len(),
        report.cancelled == report.executions@.filter(
            |execution: ExecutionResult| execution.status is Cancelled,
        ).len(),
        report.memory_limit_exceeded == report.executions@.filter(
            |execution: ExecutionResult| execution.status is MemoryLimitExceeded,
        ).len(),
        report.failed == report.executions@.filter(
            |execution: ExecutionResult|
                !(execution.status is Completed || execution.status is TimedOut
                    || execution.status is Cancelled),
        ).len(),
        forall|i: int|
            0 <= i < run.results@.len() ==> (#[trigger] report.executions@[i]).execution_id
                == run.results@[i].report.execution_id && report.executions@[i].lane_id
                == run.results@[i].report.lane_id,
        report.requested == requested,
        report.execution_lanes == execution_lanes,
        report.total_duration == total_duration,
{
    let all = report.executions@;
    lemma_with_status(all, exactly(ExecutionStatus::Completed));
    lemma_with_status(all, exactly(ExecutionStatus::TimedOut));
    lemma_with_status(all, exactly(ExecutionStatus::Cancelled));
    lemma_with_status(all, exactly(ExecutionStatus::MemoryLimitExceeded));
    lemma_with_status(all, is_failed());
    lemma_same_filter(
        all,
        |execution: ExecutionResult|
            exactly(ExecutionStatus::Completed)(execution.status),
        |execution: ExecutionResult| execution.status is Completed,
    );
    lemma_same_filter(
        all,
        |execution: ExecutionResult| exactly(ExecutionStatus::TimedOut)(execution.status),
        |execution: ExecutionResult| execution.status is TimedOut,
    );
    lemma_same_filter(
        all,
        |execution: ExecutionResult|
            exactly(ExecutionStatus::Cancelled)(execution.status),
        |execution: ExecutionResult| execution.status is Cancelled,
    );
    lemma_same_filter(
        all,
        |execution: ExecutionResult|
            exactly(ExecutionStatus::MemoryLimitExceeded)(execution.status),
        |execution: ExecutionResult| execution.status is MemoryLimitExceeded,
    );
    lemma_same_filter(
        all,
        |execution: ExecutionResult| is_failed()(execution.status),
        |execution: ExecutionResult|
            !(execution.status is Completed || execution.status is TimedOut
                || execution.status is Cancelled),
    );
    assert forall|i: int| 0 <= i < run.results@.len() implies (
    #[trigger] report.executions@[i]).execution_id == run.results@[i].report.execution_id
        && report.executions@[i].lane_id == run.results@[i].report.lane_id by {
        assert(tells(report.executions@[i], run.results@[i]));
    }
}

proof fn lemma_same_filter(
    executions: Seq<ExecutionResult>,
    keep: spec_fn(ExecutionResult) -> bool,
    other: spec_fn(ExecutionResult) -> bool,
)
    requires
        forall|execution: ExecutionResult| keep(execution) == #[trigger] other(execution),
    ensures
        executions.filter(keep) == executions.filter(other),
{
    assert(keep =~= other);
}

/// A batch is executed exactly where the request is valid and for the artifact of
/// the node, and asks for at least one execution. There are then as many as were
/// asked for, with numbers that follow each other, each of them in a lane of the
/// node; otherwise none is numbered.
pub proof fn law_batches_are_executed_whole(
    node: PitNode,
    after: PitNode,
    request: ExecutionRequest,
    token: CancellationToken,
    count: usize,
    valid: Result<(), Failure>,
    ran: Result<NodeRunReport, Failure>,
)
    requires
        call_ensures(ExecutionRequest::validate, (&request,), valid),
        batch_ran(&node, request, token, count, ran),
        moved_on(&node, &after, request, count),
    ensures
        ran is Ok <==> valid is Ok && request.artifact.identity()
            == node.executes().of().identity() && count > 0,
        ran is Err ==> after.schedules().next_id() == node.schedules().next_id(),
        ran matches Ok(report) ==> {
            &&& after.schedules().next_id() == node.schedules().next_id() + count
            &&& report.executions@.len() == count
            &&& report.completed + report.failed + report.timed_out + report.cancelled == count
            &&& forall|i: int|
                0 <= i < count ==> (#[trigger] report.executions@[i]).execution_id.0
                    == node.schedules().next_id() + i && report.executions@[i].lane_id.0
                    < node.schedules().width()
            &&& forall|i: int|
                0 <= i < count && prepared_refuses(node.executes(), request) ==> (
                #[trigger] report.executions@[i]).status is RuntimeError
        },
        valid is Err ==> ran is Err && ran->Err_0.message@ == valid->Err_0.message@,
{
    if let Ok(report) = ran {
        assert forall|i: int| 0 <= i < count implies (
        #[trigger] report.executions@[i]).execution_id.0 == node.schedules().next_id() + i
            && report.executions@[i].lane_id.0 < node.schedules().width() by {
            assert(execution_ran(&node, request, token, i, report.executions@[i]));
        }
        assert forall|i: int|
            0 <= i < count && prepared_refuses(node.executes(), request) implies (
        #[trigger] report.executions@[i]).status is RuntimeError by {
            assert(execution_ran(&node, request, token, i, report.executions@[i]));
        }
    }
}

/// Whether a command is asked for something else than to be run.
pub open spec fn prepared_refuses(prepared: PreparedArtifact, request: ExecutionRequest) -> bool {
    prepared.is_command() && request.entrypoint@ != "wasi:cli/command"@
}

/// A batch is admitted exactly where the request is valid and for the artifact, and
/// asks for at least one execution.
pub proof fn law_batches_are_admitted(
    prepared: PreparedArtifact,
    request: ExecutionRequest,
    count: usize,
    valid: Result<(), Failure>,
    result: Result<(), Failure>,
)
    requires
        call_ensures(ExecutionRequest::validate, (&request,), valid),
        call_ensures(admit_batch, (&prepared, &request, count), result),
    ensures
        result is Ok <==> valid is Ok && request.artifact.identity() == prepared.of().identity()
            && count > 0,
        valid is Err ==> result is Err && result->Err_0.message@ == valid->Err_0.message@,
        valid is Ok && request.artifact.identity() == prepared.of().identity() && count == 0
            ==> result is Err && result->Err_0.says("execution count must be greater than zero"@),
        valid is Ok && request.artifact.identity() != prepared.of().identity() ==> result is Err
            && result->Err_0.says(
            "execution request artifact '"@ + request.artifact.identity()
                + "' does not match prepared artifact '"@ + prepared.of().identity() + "'"@,
        ),
{
}

impl PitNode {
    /// One execution is a batch of one: it is made exactly where the request is valid
    /// and for the artifact of the node, under the next number, and is cancelled by the
    /// token that it was given.
    pub proof fn law_one_execution_is_a_batch_of_one(
        node: &mut PitNode,
        request: ExecutionRequest,
        cancellation: CancellationToken,
        valid: Result<(), Failure>,
        executed: Result<ExecutionResult, Failure>,
    )
        requires
            call_ensures(ExecutionRequest::validate, (&request,), valid),
            call_ensures(
                PitNode::execute_with_cancellation,
                (node, request, cancellation),
                executed,
            ),
        ensures
            executed is Ok <==> valid is Ok && request.artifact.identity() == old(
                node,
            ).executes().of().identity(),
            executed matches Ok(execution) ==> {
                &&& execution.execution_id.0 == old(node).schedules().next_id()
                &&& execution.lane_id.0 < old(node).schedules().width()
                &&& final(node).schedules().next_id() == old(node).schedules().next_id() + 1
                &&& (execution.error is None <==> execution.status is Completed)
            },
            executed is Err ==> final(node).schedules().next_id() == old(
                node,
            ).schedules().next_id(),
            final(node).executes() == old(node).executes(),
    {
        if let Ok(execution) = executed {
            assert(execution_ran(old(node), request, cancellation, 0, execution));
        }
    }
}

} // verus!

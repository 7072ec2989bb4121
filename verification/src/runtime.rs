//! The runtime: engines, artifacts prepared for them, and executions.

use std::sync::Arc;
use std::time::{Instant, SystemTime};

use vstd::prelude::*;
use wasmtime::Engine;

use crate::artifact::{detect_format, ArtifactFormat, FoundFile, WasmArtifact};
use crate::cache::{engine_fingerprint, CacheKey, CompiledCacheConfig, HostPlatform};
use crate::clock::Span;
use crate::failure::Failure;
use crate::guest::{
    error_chain_text, new_engine, prepare_component, prepare_http_component, prepare_module,
    read_return, run_component, run_module, same_engine, tick, try_component, try_module,
    CompiledComponent, EngineSettings, GuestEngine, GuestReturn, GuestRun, HostState,
    PoolingLimits, PreparedComponent, PreparedModule,
};
use crate::outcome::{
    conclude, CancellationToken, ControlSignal, ExecutionControl, ExecutionStatus,
    RuntimeExecutionResult, RuntimeLimiter,
};
use crate::preparation::{CachedPreparation, Phase, PreparationReport};
use crate::request::ExecutionRequest;
use crate::text::{concat2, same};
use crate::{artifact, cache, digest, guest, outcome, preparation, request, text};

verus! {

/// How a compiled artifact comes back out of the cache.
#[derive(Debug, Clone, Copy, PartialEq, Eq, Structural)]
pub enum CompiledCacheRestoreMode {
    /// The whole file is read into memory first.
    Bytes,
    /// The engine maps the file.
    FileBacked,
}

impl Default for CompiledCacheRestoreMode {
    fn default() -> (mode: Self)
        ensures
            mode == CompiledCacheRestoreMode::FileBacked,
    {
        CompiledCacheRestoreMode::FileBacked
    }
}

/// Where the instances of an engine come from.
#[derive(Debug, Clone, Copy, PartialEq, Eq, Structural)]
pub enum RuntimeAllocationMode {
    /// Each instance is allocated when it is made.
    OnDemand,
    /// Instances come out of a pool with so many slots.
    Pooling { slots: usize },
}

impl Default for RuntimeAllocationMode {
    fn default() -> (mode: Self)
        ensures
            mode == RuntimeAllocationMode::OnDemand,
    {
        RuntimeAllocationMode::OnDemand
    }
}

/// The controls of a runtime.
#[derive(Debug, Clone, Copy, PartialEq, Eq, Structural)]
pub struct PitRuntimeConfig {
    pub compiled_cache_restore: CompiledCacheRestoreMode,
    pub allocation: RuntimeAllocationMode,
    pub memory_init_cow: Option<bool>,
    pub pre_resolved_imports: bool,
}

/// The controls of a runtime that is not told otherwise.
pub open spec fn default_controls() -> PitRuntimeConfig {
    PitRuntimeConfig {
        compiled_cache_restore: CompiledCacheRestoreMode::FileBacked,
        allocation: RuntimeAllocationMode::OnDemand,
        memory_init_cow: None,
        pre_resolved_imports: true,
    }
}

impl Default for PitRuntimeConfig {
    fn default() -> (config: Self)
        ensures
            config == default_controls(),
    {
        PitRuntimeConfig {
            compiled_cache_restore: CompiledCacheRestoreMode::FileBacked,
            allocation: RuntimeAllocationMode::OnDemand,
            memory_init_cow: None,
            pre_resolved_imports: true,
        }
    }
}

/// The slots that a pool is given: at least one.
pub open spec fn pool_slots(slots: usize) -> int {
    if slots == 0 {
        1
    } else {
        slots as int
    }
}

/// The limits of a pool: a slot each for components, stacks and warm slots,
/// and eight for each of the resources that components are made of.
pub open spec fn pool_limits(slots: usize) -> PoolingLimits {
    let each = pool_slots(slots) as u32;
    let many = (pool_slots(slots) * 8) as u32;
    PoolingLimits {
        component_instances: each,
        core_instances: many,
        memories: many,
        tables: many,
        stacks: each,
        unused_warm_slots: each,
    }
}

/// Why a pool with so many slots cannot be had.
pub open spec fn pool_problem(slots: usize) -> Option<Seq<char>> {
    if pool_slots(slots) > u32::MAX {
        Some("pooling slot count exceeds u32"@)
    } else if pool_slots(slots) * 8 > u32::MAX {
        Some("pooling resource slot count is too large"@)
    } else {
        None
    }
}

/// The settings of an engine for a runtime. Guests can always be interrupted.
pub open spec fn engine_settings(
    config: PitRuntimeConfig,
    async_support: bool,
    memory_reservation: Option<u64>,
) -> EngineSettings {
    EngineSettings {
        epoch_interruption: true,
        async_support,
        memory_init_cow: config.memory_init_cow,
        memory_reservation,
        pooling: match config.allocation {
            RuntimeAllocationMode::Pooling { slots } => Some(pool_limits(slots)),
            RuntimeAllocationMode::OnDemand => None,
        },
    }
}

/// The settings of an engine for a runtime, where its pool can be had.
pub fn configure_engine(
    config: &PitRuntimeConfig,
    async_support: bool,
    memory_reservation: Option<u64>,
) -> (settings: Result<EngineSettings, Failure>)
    ensures
        match config.allocation {
            RuntimeAllocationMode::Pooling { slots } if pool_problem(slots) is Some => settings
                matches Err(failure) && failure.message@ == pool_problem(slots)->0,
            _ => settings matches Ok(made) && made == engine_settings(
                *config,
                async_support,
                memory_reservation,
            ),
        },
{
    let mut pooling: Option<PoolingLimits> = None;
    if let RuntimeAllocationMode::Pooling { slots } = config.allocation {
        let wanted: usize = if slots == 0 {
            1
        } else {
            slots
        };
        if wanted as u64 > u32::MAX as u64 {
            return Err(
                Failure::caused(
                    "pooling slot count exceeds u32",
                    "out of range integral type conversion attempted".to_owned(),
                ),
            );
        }
        let each = wanted as u32;
        let many: u64 = 8 * (each as u64);
        if many > u32::MAX as u64 {
            return Err(Failure::new("pooling resource slot count is too large"));
        }
        let many = many as u32;
        pooling = Some(
            PoolingLimits {
                component_instances: each,
                core_instances: many,
                memories: many,
                tables: many,
                stacks: each,
                unused_warm_slots: each,
            },
        );
    }
    Ok(
        EngineSettings {
            epoch_interruption: true,
            async_support,
            memory_init_cow: config.memory_init_cow,
            memory_reservation,
            pooling,
        },
    )
}

/// The function that a WASI Preview 1 module starts with.
pub open spec fn preview1_entrypoint() -> Seq<char> {
    "_start"@
}

/// The world of a WASI Preview 2 command.
pub open spec fn preview2_entrypoint() -> Seq<char> {
    "wasi:cli/command"@
}

/// The world of an HTTP component.
pub open spec fn http_world() -> Seq<char> {
    "wasi:http/proxy"@
}

/// What of an HTTP component the host has prepared outside the artifact.
#[derive(Debug, Clone, Copy, PartialEq, Eq, Structural)]
pub enum HttpHalf {
    /// Nothing.
    Unprepared,
    /// An engine, but nothing that could be instantiated.
    EngineOnly,
    /// A component whose imports are resolved.
    Resolved,
    /// A component, and what its imports are bound to.
    Unresolved,
}

/// An artifact that is ready to be executed.
pub struct PreparedArtifact {
    module: Option<Arc<PreparedModule>>,
    component: Option<Arc<PreparedComponent>>,
    http_component: Option<Arc<CompiledComponent>>,
    http: HttpHalf,
    artifact: WasmArtifact,
}

/// The same value once more, where there is one.
fn share<T>(value: &Option<Arc<T>>) -> (same: Option<Arc<T>>)
    ensures
        same == *value,
{
    match value {
        Some(value) => Some(Arc::clone(value)),
        None => None,
    }
}

impl Clone for PreparedArtifact {
    /// The same compiled code once more.
    fn clone(&self) -> (copy: Self)
        ensures
            self.wf() ==> copy.wf(),
            copy.of().identity() == self.of().identity(),
            copy.of().path() == self.of().path(),
            copy.of().bytes() == self.of().bytes(),
            copy.of().settled_digest() == self.of().settled_digest(),
            copy.is_module() == self.is_module(),
            copy.is_command() == self.is_command(),
            copy.code() == self.code(),
            copy.runs_in() == self.runs_in(),
            copy.answers_in() == self.answers_in(),
            copy.http_half() == self.http_half(),
    {
        PreparedArtifact {
            module: share(&self.module),
            component: share(&self.component),
            http_component: share(&self.http_component),
            http: self.http,
            artifact: self.artifact.clone(),
        }
    }
}

/// Why a request is not executed by an artifact that was prepared: the request
/// is refused, it is for another artifact, or it names an entrypoint that a
/// command component does not have.
pub open spec fn admission_problem(prepared: PreparedArtifact, request: ExecutionRequest) -> Option<
    Seq<char>,
> {
    match request::request_problem(request) {
        Some(problem) => Some(problem),
        None => if request.artifact.identity() != prepared.of().identity() {
            Some(
                "execution request artifact '"@ + request.artifact.identity()
                    + "' does not match prepared artifact '"@ + prepared.of().identity() + "'"@,
            )
        } else if prepared.is_command() && request.entrypoint@ != preview2_entrypoint() {
            Some(
                "unsupported WASI Preview 2 entrypoint '"@ + request.entrypoint@ + "'; expected "@
                    + preview2_entrypoint(),
            )
        } else {
            None
        },
    }
}

/// What the guest of a request is run with: the arguments behind the name of the
/// program, the environment and the limits of the request, and nothing else. It
/// is looked at on every tick of the epoch, can be cancelled with the token, and
/// all that it writes is kept. A command has but one function to call.
pub open spec fn run_for(
    prepared: PreparedArtifact,
    request: ExecutionRequest,
    token: CancellationToken,
) -> GuestRun {
    GuestRun {
        wasm: prepared.code(),
        entrypoint: if prepared.is_command() {
            None
        } else {
            Some(request.entrypoint@)
        },
        args: request.argv(),
        env: text::text_pairs(request.env@),
        memory_limit: request.limits.memory_bytes,
        timeout: request.limits.timeout,
        token,
        ticks: Some(1),
        capacity: usize::MAX,
        exit_codes: true,
    }
}

/// Whether an instance for a request can be made so: without a problem, or with
/// one that the text says. Nothing is called, and nothing interrupts it.
pub open spec fn may_start(
    prepared: PreparedArtifact,
    request: ExecutionRequest,
    problem: Option<Seq<char>>,
) -> bool {
    exists|token: CancellationToken| #[trigger]
        may_start_with(prepared, request, token, problem)
}

/// Whether an instance for a request can be made so, with a token that nobody
/// else has.
pub open spec fn may_start_with(
    prepared: PreparedArtifact,
    request: ExecutionRequest,
    token: CancellationToken,
    problem: Option<Seq<char>>,
) -> bool {
    let run = GuestRun {
        entrypoint: None,
        timeout: None,
        ticks: None,
        ..run_for(prepared, request, token)
    };
    if prepared.is_command() {
        guest::component_may_start(run, problem)
    } else {
        guest::module_may_start(run, problem)
    }
}

/// Whether an execution ended as its guest did.
pub open spec fn ended_as(
    run: GuestRun,
    returned: GuestReturn,
    signal: ControlSignal,
    memory_exceeded: bool,
    parts: (ExecutionStatus, Option<i32>, Option<Seq<char>>),
    stdout: Seq<u8>,
    stderr: Seq<u8>,
) -> bool {
    &&& guest::module_ended(run, returned, signal, memory_exceeded, stdout, stderr)
    &&& parts == outcome::verdict_on(guest::outcome_of(returned), signal, memory_exceeded)
    &&& memory_exceeded ==> run.memory_limit is Some
    &&& signal == ControlSignal::TimedOut ==> run.timeout is Some
}

/// Whether the status, the exit code, the error and the outputs of an execution
/// are those of some end that its guest may come to.
pub open spec fn executed_as(
    run: GuestRun,
    parts: (ExecutionStatus, Option<i32>, Option<Seq<char>>),
    stdout: Seq<u8>,
    stderr: Seq<u8>,
) -> bool {
    exists|returned: GuestReturn, signal: ControlSignal, memory_exceeded: bool| #[trigger]
        ended_as(run, returned, signal, memory_exceeded, parts, stdout, stderr)
}

/// An execution without a timeout does not time out, and one without a limit on
/// its memory does not exceed it.
pub proof fn law_only_limits_are_exceeded(
    run: GuestRun,
    parts: (ExecutionStatus, Option<i32>, Option<Seq<char>>),
    stdout: Seq<u8>,
    stderr: Seq<u8>,
)
    requires
        executed_as(run, parts, stdout, stderr),
    ensures
        parts.0 == ExecutionStatus::TimedOut ==> run.timeout is Some,
        parts.0 == ExecutionStatus::MemoryLimitExceeded ==> run.memory_limit is Some,
{
}

impl PreparedArtifact {
    /// The artifact that was prepared.
    pub closed spec fn of(&self) -> WasmArtifact {
        self.artifact
    }

    /// Whether a core module was prepared.
    pub closed spec fn is_module(&self) -> bool {
        self.module is Some
    }

    /// Whether a command component was prepared.
    pub closed spec fn is_command(&self) -> bool {
        self.component is Some
    }

    /// What of an HTTP component was prepared.
    pub closed spec fn http_half(&self) -> HttpHalf {
        self.http
    }

    /// The bytes that were compiled to be executed.
    pub closed spec fn code(&self) -> Seq<u8> {
        match (self.component, self.module) {
            (Some(component), _) => component.code(),
            (None, Some(module)) => module.code(),
            (None, None) => Seq::empty(),
        }
    }

    /// The engine that guests of the artifact run in, where it can be executed.
    pub closed spec fn runs_in(&self) -> Option<Engine> {
        match (self.component, self.module) {
            (Some(component), _) => Some(component.home().handle()),
            (None, Some(module)) => Some(module.home().handle()),
            (None, None) => None,
        }
    }

    /// The engine that the component for HTTP was compiled for, where it was
    /// compiled with the command.
    pub closed spec fn answers_in(&self) -> Option<Engine> {
        match self.http_component {
            Some(component) => Some(component.home().handle()),
            None => None,
        }
    }

    /// A module, a component for commands and HTTP, or a component for HTTP
    /// alone was prepared.
    pub closed spec fn wf(&self) -> bool {
        &&& self.module is Some ==> self.component is None && self.http == HttpHalf::Unprepared
        &&& self.component matches Some(component) ==> {
            &&& self.http_component matches Some(http) && http.compiled_from() == component.code()
            &&& self.http == HttpHalf::EngineOnly || self.http == HttpHalf::Resolved
        }
        &&& self.module is None && self.component is None ==> self.http == HttpHalf::Resolved
            || self.http == HttpHalf::Unresolved
    }

    /// What was prepared, in a sound artifact.
    pub proof fn lemma_wf(&self)
        requires
            self.wf(),
        ensures
            self.is_module() ==> !self.is_command() && self.http_half() == HttpHalf::Unprepared,
            self.is_command() ==> self.http_half() == HttpHalf::EngineOnly || self.http_half()
                == HttpHalf::Resolved,
            !self.is_module() && !self.is_command() ==> self.http_half() == HttpHalf::Resolved
                || self.http_half() == HttpHalf::Unresolved,
    {
    }

    /// The artifact that was prepared.
    pub fn artifact(&self) -> (artifact: &WasmArtifact)
        ensures
            *artifact == self.of(),
    {
        &self.artifact
    }

    /// What of an HTTP component was prepared.
    pub fn http(&self) -> (half: HttpHalf)
        ensures
            half == self.http_half(),
    {
        self.http
    }

    /// The component for HTTP, where it was compiled with the command.
    pub fn http_component(&self) -> (component: &Option<Arc<CompiledComponent>>)
        requires
            self.wf(),
        ensures
            self.is_command() ==> (component matches Some(http) && http.compiled_from()
                == self.code() && Some(http.home().handle()) == self.answers_in()),
    {
        &self.http_component
    }

    /// The artifact, once the imports of its HTTP component are resolved.
    pub fn resolved(self) -> (prepared: PreparedArtifact)
        requires
            self.wf(),
            self.is_command(),
        ensures
            prepared.wf(),
            prepared.of() == self.of(),
            prepared.is_command(),
            prepared.code() == self.code(),
            prepared.runs_in() == self.runs_in(),
            prepared.answers_in() == self.answers_in(),
            prepared.http_half() == HttpHalf::Resolved,
    {
        PreparedArtifact { http: HttpHalf::Resolved, ..self }
    }

    /// An artifact that was prepared for HTTP alone, with its imports resolved
    /// or not.
    pub fn for_http(artifact: WasmArtifact, pre_resolved: bool) -> (prepared: PreparedArtifact)
        ensures
            prepared.wf(),
            prepared.of() == artifact,
            !prepared.is_module(),
            !prepared.is_command(),
            prepared.http_half() == if pre_resolved {
                HttpHalf::Resolved
            } else {
                HttpHalf::Unresolved
            },
    {
        PreparedArtifact {
            module: None,
            component: None,
            http_component: None,
            http: if pre_resolved {
                HttpHalf::Resolved
            } else {
                HttpHalf::Unresolved
            },
            artifact,
        }
    }

    /// The entrypoint of the artifact: the command world for components, the
    /// start function for modules.
    pub fn default_entrypoint(&self) -> (entrypoint: &'static str)
        requires
            self.wf(),
        ensures
            entrypoint@ == if self.is_module() {
                preview1_entrypoint()
            } else {
                preview2_entrypoint()
            },
    {
        let is_http = match self.http {
            HttpHalf::Resolved => true,
            HttpHalf::Unresolved => true,
            _ => false,
        };
        if self.component.is_some() || is_http {
            "wasi:cli/command"
        } else {
            "_start"
        }
    }

    /// How long it takes to make an instance, without calling it. A request
    /// that is refused, or for another artifact, is not measured.
    pub fn measure_instantiation(&self, request: &ExecutionRequest) -> (measured: Result<
        Span,
        Failure,
    >)
        requires
            self.is_module() || self.is_command() || request::request_problem(*request) is Some
                || request.artifact.identity() != self.of().identity(),
        ensures
            match request::request_problem(*request) {
                Some(problem) => measured matches Err(failure) && failure.says(problem),
                None => if request.artifact.identity() != self.of().identity() {
                    measured matches Err(failure) && failure.says(
                        "execution request artifact does not match prepared artifact"@,
                    )
                } else {
                    match measured {
                        Ok(_) => may_start(*self, *request, None),
                        Err(failure) => failure.cause is None && may_start(
                            *self,
                            *request,
                            Some(failure.message@),
                        ),
                    }
                },
            },
    {
        match request.validate() {
            Ok(()) => {},
            Err(failure) => {
                return Err(failure);
            },
        }
        if !same(request.artifact.id().as_str(), self.artifact.id().as_str()) {
            return Err(
                Failure::new("execution request artifact does not match prepared artifact"),
            );
        }
        let args = request.guest_args();
        let begun = Instant::now();
        let limits = RuntimeLimiter::new(request.limits.memory_bytes);
        let token = CancellationToken::new();
        let ghost unshared = token;
        let control = ExecutionControl::new(token, None);
        let state = HostState::new(&args, &request.env, limits, control);
        let made = match (&self.component, &self.module) {
            (Some(component), _) => try_component(component, state),
            (None, Some(module)) => try_module(module, state),
            (None, None) => vstd::pervasive::unreached(),
        };
        match made {
            Ok(()) => {
                assert(may_start_with(*self, *request, unshared, None));
                Ok(Span::since(&begun))
            },
            Err(GuestReturn::NotStarted(text)) => {
                assert(may_start_with(*self, *request, unshared, Some(text@)));
                Err(Failure::of(text))
            },
            Err(_) => vstd::pervasive::unreached(),
        }
    }

    /// Executes a request in a guest of its own. Where the request is admitted
    /// there is a result, whatever the guest does: it is that of an end which a
    /// guest may come to that is run as the request says. An artifact that was
    /// prepared for HTTP alone has nothing to admit a request for.
    pub fn execute(&self, request: &ExecutionRequest, cancellation: CancellationToken) -> (result:
        Result<RuntimeExecutionResult, Failure>)
        requires
            self.is_module() || self.is_command() || admission_problem(*self, *request) is Some,
        ensures
            match admission_problem(*self, *request) {
                Some(problem) => result matches Err(failure) && failure.says(problem),
                None => result matches Ok(executed) && executed.fits() && executed_as(
                    run_for(*self, *request, cancellation),
                    executed.parts(),
                    executed.stdout@,
                    executed.stderr@,
                ),
            },
    {
        match request.validate() {
            Ok(()) => {},
            Err(failure) => {
                return Err(failure);
            },
        }
        let wanted = request.artifact.id().as_str();
        let here = self.artifact.id().as_str();
        if !same(wanted, here) {
            let mut message = concat2("execution request artifact '", wanted);
            message = concat2(message.as_str(), "' does not match prepared artifact '");
            message = concat2(message.as_str(), here);
            message = concat2(message.as_str(), "'");
            return Err(Failure::of(message));
        }
        match (&self.component, &self.module) {
            (Some(component), _) => {
                if !same(request.entrypoint.as_str(), "wasi:cli/command") {
                    let mut message = concat2(
                        "unsupported WASI Preview 2 entrypoint '",
                        request.entrypoint.as_str(),
                    );
                    message = concat2(message.as_str(), "'; expected ");
                    message = concat2(message.as_str(), "wasi:cli/command");
                    return Err(Failure::of(message));
                }
                Ok(execute_p2(component, request, cancellation))
            },
            (None, Some(module)) => Ok(execute_p1(module, request, cancellation)),
            (None, None) => vstd::pervasive::unreached(),
        }
    }
}

/// Executes a request in a guest of a module.
fn execute_p1(
    module: &PreparedModule,
    request: &ExecutionRequest,
    cancellation: CancellationToken,
) -> (result: RuntimeExecutionResult)
    ensures
        result.fits(),
        executed_as(
            GuestRun {
                wasm: module.code(),
                entrypoint: Some(request.entrypoint@),
                args: request.argv(),
                env: text::text_pairs(request.env@),
                memory_limit: request.limits.memory_bytes,
                timeout: request.limits.timeout,
                token: cancellation,
                ticks: Some(1),
                capacity: usize::MAX,
                exit_codes: true,
            },
            result.parts(),
            result.stdout@,
            result.stderr@,
        ),
{
    let started = SystemTime::now();
    let timer = Instant::now();
    let args = request.guest_args();
    let limits = RuntimeLimiter::new(request.limits.memory_bytes);
    let control = ExecutionControl::new(cancellation, request.limits.timeout);
    let state = HostState::new(&args, &request.env, limits, control);
    let ghost run = GuestRun {
        entrypoint: Some(request.entrypoint@),
        ticks: Some(1),
        ..state.run_of(module.code())
    };
    let (returned, spent) = run_module(module, state, request.entrypoint.as_str());
    let ghost said = returned;
    let signal = spent.state.signal();
    let memory_exceeded = spent.state.memory_exceeded();
    let result = conclude(
        read_return(returned),
        signal,
        memory_exceeded,
        spent.stdout,
        spent.stderr,
        started,
        Span::since(&timer),
    );
    assert(ended_as(
        run,
        said,
        signal,
        memory_exceeded,
        result.parts(),
        result.stdout@,
        result.stderr@,
    ));
    result
}

/// Executes a request in a guest of a command component.
fn execute_p2(
    component: &PreparedComponent,
    request: &ExecutionRequest,
    cancellation: CancellationToken,
) -> (result: RuntimeExecutionResult)
    ensures
        result.fits(),
        executed_as(
            GuestRun {
                wasm: component.code(),
                entrypoint: None,
                args: request.argv(),
                env: text::text_pairs(request.env@),
                memory_limit: request.limits.memory_bytes,
                timeout: request.limits.timeout,
                token: cancellation,
                ticks: Some(1),
                capacity: usize::MAX,
                exit_codes: true,
            },
            result.parts(),
            result.stdout@,
            result.stderr@,
        ),
{
    let started = SystemTime::now();
    let timer = Instant::now();
    let args = request.guest_args();
    let limits = RuntimeLimiter::new(request.limits.memory_bytes);
    let control = ExecutionControl::new(cancellation, request.limits.timeout);
    let state = HostState::new(&args, &request.env, limits, control);
    let ghost run = GuestRun { ticks: Some(1), ..state.run_of(component.code()) };
    let (returned, spent) = run_component(component, state);
    let ghost said = returned;
    let signal = spent.state.signal();
    let memory_exceeded = spent.state.memory_exceeded();
    let result = conclude(
        read_return(returned),
        signal,
        memory_exceeded,
        spent.stdout,
        spent.stderr,
        started,
        Span::since(&timer),
    );
    assert(ended_as(
        run,
        said,
        signal,
        memory_exceeded,
        result.parts(),
        result.stdout@,
        result.stderr@,
    ));
    result
}

/// The engines, and what they were made with.
pub struct PitRuntime {
    engine: GuestEngine,
    http_engine: GuestEngine,
    http_component_fingerprint: String,
    platform: HostPlatform,
    config: PitRuntimeConfig,
}

/// Moves the epoch of the engines of a runtime on. Guests can be interrupted
/// when it moves, which the host sees to once a millisecond.
pub struct EpochClock {
    engine: Engine,
    http_engine: Engine,
}

impl EpochClock {
    /// The engines whose epoch is moved on: the one for modules and commands, and
    /// the one for HTTP.
    pub closed spec fn drives(&self) -> (Engine, Engine) {
        (self.engine, self.http_engine)
    }

    /// Moves the epoch on by one.
    pub fn advance(&self) {
        tick(&self.engine);
        tick(&self.http_engine);
    }

    /// Another clock for the same engines.
    pub fn share(&self) -> (clock: EpochClock)
        ensures
            clock.drives() == self.drives(),
    {
        EpochClock { engine: same_engine(&self.engine), http_engine: same_engine(&self.http_engine) }
    }
}

/// How an artifact starts on its way through the cache.
pub enum CachedStart {
    /// A module, which is not kept in the cache, is prepared already.
    Prepared(PreparedArtifact, PreparationReport),
    /// A component is to be looked up.
    Begun(WasmArtifact, CachedPreparation),
}

proof fn lemma_content_digest_cuts(bytes: Seq<u8>)
    requires
        digest::sha256_digest(bytes).len() == 32,
    ensures
        cache::first_two_bytes(cache::bare_digest(digest::content_identity(bytes))) is Some,
{
    let prefix = "sha256:"@;
    let digits = text::hex(digest::sha256_digest(bytes));
    let identity = digest::content_identity(bytes);
    assert(identity.take(prefix.len() as int) =~= prefix);
    assert(identity.skip(prefix.len() as int) =~= digits);
    assert(text::starts_with(identity, prefix));
    lemma_hex_is_narrow(digest::sha256_digest(bytes));
    text::lemma_hex_injective(digest::sha256_digest(bytes), digest::sha256_digest(bytes));
    assert(cache::char_width(digits[0]) == 1);
    assert(cache::char_width(digits[1]) == 1);
}

proof fn lemma_digit_is_narrow(d: nat)
    requires
        d < 16,
    ensures
        cache::char_width(text::hex_digit(d)) == 1,
{
}

proof fn lemma_hex_is_narrow(bytes: Seq<u8>)
    ensures
        forall|i: int|
            0 <= i < text::hex(bytes).len() ==> cache::char_width(#[trigger] text::hex(bytes)[i])
                == 1,
    decreases bytes.len(),
{
    if bytes.len() > 0 {
        let rest = text::hex(bytes.drop_last());
        lemma_hex_is_narrow(bytes.drop_last());
        lemma_digit_is_narrow(bytes.last() as nat / 16);
        lemma_digit_is_narrow(bytes.last() as nat % 16);
        assert forall|i: int| 0 <= i < text::hex(bytes).len() implies cache::char_width(
            #[trigger] text::hex(bytes)[i],
        ) == 1 by {
            if i < rest.len() {
                assert(text::hex(bytes)[i] == rest[i]);
            }
        }
    }
}

impl PitRuntime {
    /// The engine for HTTP, and no other, runs guests in futures, and the
    /// fingerprint is named after it.
    #[verifier::type_invariant]
    spec fn sound(self) -> bool {
        &&& !self.engine.made_with().async_support
        &&& self.http_engine.made_with().async_support
        &&& cache::names_engine(
            self.http_component_fingerprint@,
            self.http_engine.made_with(),
            ArtifactFormat::Component,
            http_world(),
            self.platform,
        )
    }

    /// The controls of the runtime.
    pub closed spec fn controls(&self) -> PitRuntimeConfig {
        self.config
    }

    /// The engine for modules and commands.
    pub closed spec fn handle(&self) -> Engine {
        self.engine.handle()
    }

    /// The engine for HTTP, which runs guests in futures.
    pub closed spec fn http_handle(&self) -> Engine {
        self.http_engine.handle()
    }

    /// The settings of the engine for modules and commands.
    pub closed spec fn settings(&self) -> EngineSettings {
        self.engine.made_with()
    }

    /// The settings of the engine for HTTP.
    pub closed spec fn http_settings(&self) -> EngineSettings {
        self.http_engine.made_with()
    }

    /// The machine that the runtime compiles for.
    pub closed spec fn machine(&self) -> HostPlatform {
        self.platform
    }

    /// The fingerprint of the HTTP components that the runtime compiles.
    pub closed spec fn http_fingerprint(&self) -> Seq<char> {
        self.http_component_fingerprint@
    }

    /// A runtime with the default controls.
    pub fn new(platform: HostPlatform) -> (made: Result<PitRuntime, Failure>)
        ensures
            made_with(default_controls(), platform, None, made),
    {
        PitRuntime::with_config(PitRuntimeConfig::default(), platform)
    }

    /// A runtime whose engines reserve as much address space as they want.
    pub fn with_config(config: PitRuntimeConfig, platform: HostPlatform) -> (made: Result<
        PitRuntime,
        Failure,
    >)
        ensures
            made_with(config, platform, None, made),
    {
        PitRuntime::with_reservation(config, platform, None)
    }

    /// A runtime with its two engines: one for modules and commands, and one
    /// that runs guests in futures for HTTP. A pool that cannot be had is
    /// refused before any engine is made. A host with little address space says
    /// how much of it each memory reserves.
    pub fn with_reservation(
        config: PitRuntimeConfig,
        platform: HostPlatform,
        memory_reservation: Option<u64>,
    ) -> (made: Result<PitRuntime, Failure>)
        ensures
            made_with(config, platform, memory_reservation, made),
    {
        let settings = match configure_engine(&config, false, memory_reservation) {
            Ok(settings) => settings,
            Err(failure) => {
                return Err(failure);
            },
        };
        let engine = match new_engine(&settings) {
            Ok(engine) => engine,
            Err(error) => {
                return Err(
                    Failure::caused("failed to create Wasmtime engine", error_chain_text(&error)),
                );
            },
        };
        let http_settings = match configure_engine(&config, true, memory_reservation) {
            Ok(settings) => settings,
            Err(failure) => {
                return Err(failure);
            },
        };
        let http_engine = match new_engine(&http_settings) {
            Ok(engine) => engine,
            Err(error) => {
                return Err(
                    Failure::caused("failed to create async HTTP engine", error_chain_text(&error)),
                );
            },
        };
        let http_component_fingerprint = engine_fingerprint(
            &http_engine,
            ArtifactFormat::Component,
            "wasi:http/proxy",
            &platform,
        );
        Ok(PitRuntime { engine, http_engine, http_component_fingerprint, platform, config })
    }

    /// The controls of the runtime.
    pub fn config(&self) -> (config: PitRuntimeConfig)
        ensures
            config == self.controls(),
    {
        self.config
    }

    /// The fingerprint of the HTTP components that the runtime compiles.
    pub fn http_component_fingerprint(&self) -> (fingerprint: &str)
        ensures
            fingerprint@ == self.http_fingerprint(),
    {
        self.http_component_fingerprint.as_str()
    }

    /// The engine that runs guests in futures.
    pub fn http_engine(&self) -> (engine: &GuestEngine)
        ensures
            engine.handle() == self.http_handle(),
            engine.made_with() == self.http_settings(),
    {
        &self.http_engine
    }

    /// What the host moves the epoch of both engines on with.
    pub fn epoch_clock(&self) -> (clock: EpochClock)
        ensures
            clock.drives() == (self.handle(), self.http_handle()),
    {
        EpochClock {
            engine: same_engine(self.engine.inner()),
            http_engine: same_engine(self.http_engine.inner()),
        }
    }

    /// Prepares an artifact to be executed.
    pub fn prepare(&self, artifact: WasmArtifact, found: FoundFile) -> (prepared: Result<
        PreparedArtifact,
        Failure,
    >)
        ensures
            prepared_from(*self, artifact, found, prepared),
    {
        match self.prepare_with_world(artifact, found) {
            Ok((prepared, _)) => Ok(prepared),
            Err(failure) => Err(failure),
        }
    }

    /// Prepares an artifact in a file, with a runtime of its own.
    pub fn from_file(path: &str, found: FoundFile, platform: HostPlatform) -> (prepared: Result<
        PreparedArtifact,
        Failure,
    >)
        ensures
            match prepared {
                Ok(ready) => {
                    &&& ready.wf()
                    &&& found matches FoundFile::Contents(bytes)
                    &&& ready.code() == bytes@
                    &&& ready.of().identity() == "path:"@ + path@
                    &&& ready.of().path() == Some(path@)
                    &&& ready.is_module() <==> artifact::header_format(bytes@) == Some(
                        ArtifactFormat::CoreModule,
                    )
                    &&& ready.is_command() <==> artifact::header_format(bytes@) == Some(
                        ArtifactFormat::Component,
                    )
                },
                Err(failure) => {
                    ||| unmade(default_controls(), None, failure)
                    ||| refused(
                        artifact::file_contents(found),
                        artifact::file_problem(path@, found),
                        engine_settings(default_controls(), false, None),
                        engine_settings(default_controls(), true, None),
                        failure,
                    )
                },
            },
    {
        match PitRuntime::new(platform) {
            Ok(runtime) => runtime.prepare(WasmArtifact::from_path(path), found),
            Err(failure) => Err(failure),
        }
    }

    /// Prepares an artifact to be executed, and to answer HTTP requests once the
    /// host has resolved the imports of its component.
    pub fn prepare_http(&self, artifact: WasmArtifact, found: FoundFile) -> (prepared: Result<
        PreparedArtifact,
        Failure,
    >)
        ensures
            prepared_from(*self, artifact, found, prepared),
    {
        match self.prepare_with_world(artifact, found) {
            Ok((prepared, _)) => Ok(prepared),
            Err(failure) => Err(failure),
        }
    }

    /// Prepares an artifact without the cache, and reports that: it is compiled,
    /// and nothing is timed.
    pub fn prepare_with_world(&self, artifact: WasmArtifact, found: FoundFile) -> (prepared: Result<
        (PreparedArtifact, PreparationReport),
        Failure,
    >)
        ensures
            match prepared {
                Ok((ready, report)) => report == preparation::plain_report() && prepared_from(
                    *self,
                    artifact,
                    found,
                    Ok(ready),
                ),
                Err(failure) => prepared_from(*self, artifact, found, Err(failure)),
            },
    {
        proof {
            use_type_invariant(self);
        }
        let bytes = match artifact.load(found) {
            Ok(bytes) => bytes,
            Err(failure) => {
                return Err(failure);
            },
        };
        let _digest = artifact.digest(bytes.as_slice());
        match detect_format(bytes.as_slice()) {
            Err(failure) => Err(failure),
            Ok(ArtifactFormat::CoreModule) => match self.prepare_core(
                artifact,
                bytes.as_slice(),
            ) {
                Ok(prepared) => Ok((prepared, PreparationReport::default())),
                Err(failure) => Err(failure),
            },
            Ok(ArtifactFormat::Component) => {
                let component = match prepare_component(&self.engine, bytes.as_slice()) {
                    Ok(component) => component,
                    Err(failure) => {
                        return Err(failure);
                    },
                };
                let http_component = match prepare_http_component(
                    &self.http_engine,
                    bytes.as_slice(),
                ) {
                    Ok(component) => component,
                    Err(failure) => {
                        return Err(failure);
                    },
                };
                let prepared = PreparedArtifact {
                    module: None,
                    component: Some(Arc::new(component)),
                    http_component: Some(Arc::new(http_component)),
                    http: HttpHalf::EngineOnly,
                    artifact,
                };
                Ok((prepared, PreparationReport::default()))
            },
        }
    }

    fn prepare_core(&self, artifact: WasmArtifact, bytes: &[u8]) -> (prepared: Result<
        PreparedArtifact,
        Failure,
    >)
        ensures
            match prepared {
                Ok(ready) => ready.wf() && ready.is_module() && ready.of() == artifact
                    && ready.code() == bytes@ && ready.runs_in() == Some(self.handle()),
                Err(failure) => guest::module_refused(self.settings(), bytes@, failure),
            },
    {
        proof {
            use_type_invariant(self);
        }
        match prepare_module(&self.engine, bytes) {
            Ok(module) => Ok(
                PreparedArtifact {
                    module: Some(Arc::new(module)),
                    component: None,
                    http_component: None,
                    http: HttpHalf::Unprepared,
                    artifact,
                },
            ),
            Err(failure) => Err(failure),
        }
    }

    /// Starts to prepare an artifact through the cache. A digest that was given
    /// with the artifact does not start with a character that its second byte
    /// would cut.
    pub fn prepare_http_cached(
        &self,
        artifact: WasmArtifact,
        found: FoundFile,
        cache: &CompiledCacheConfig,
    ) -> (start: Result<CachedStart, Failure>)
        requires
            artifact.digest_known() matches Some(digest) ==> cache::first_two_bytes(
                cache::bare_digest(digest),
            ) is Some,
        ensures
            match artifact.contents(found) {
                None => start matches Err(failure) && failure.message@ == artifact.load_problem(
                    found,
                ),
                Some(bytes) => {
                    match artifact::header_format(bytes) {
                        None => start matches Err(failure) && failure.says(
                            artifact::reader_problem(bytes),
                        ),
                        Some(ArtifactFormat::CoreModule) => match start {
                            Ok(CachedStart::Prepared(ready, report)) => {
                                &&& ready.wf()
                                &&& ready.is_module()
                                &&& ready.of() == artifact
                                &&& ready.code() == bytes
                                &&& ready.runs_in() == Some(self.handle())
                                &&& report == preparation::plain_report()
                            },
                            Ok(CachedStart::Begun(_, _)) => false,
                            Err(failure) => guest::module_refused(self.settings(), bytes, failure),
                        },
                        Some(ArtifactFormat::Component) => start matches Ok(
                            CachedStart::Begun(kept, preparation),
                        ) && {
                            let key = preparation.wanted();
                            &&& kept == artifact
                            &&& preparation.next() == Phase::LookUp
                            &&& preparation.discard_reason() is None
                            &&& preparation.artifact_bytes() == bytes
                            &&& preparation.restore_mode()
                                == self.controls().compiled_cache_restore
                            &&& key.digest@ == artifact.settled_digest()
                            &&& artifact.digest_known() is None ==> artifact::memo_may_give(
                                artifact.memory(),
                                digest::content_identity(bytes),
                                key.digest@,
                            )
                            &&& preparation.compiles_with().handle() == self.http_handle()
                            &&& preparation.compiles_with().made_with() == self.http_settings()
                            &&& key.fingerprint@ == self.http_fingerprint()
                            &&& key.platform.target() == self.machine().target()
                            &&& key.platform.architecture@ == self.machine().architecture@
                            &&& key.format == ArtifactFormat::Component
                            &&& key.world@ == http_world()
                        },
                    }
                },
            },
    {
        let bytes = match artifact.load(found) {
            Ok(bytes) => bytes,
            Err(failure) => {
                return Err(failure);
            },
        };
        let digest_started = Instant::now();
        let digest = artifact.digest(bytes.as_slice());
        let digest_duration = Span::since(&digest_started);
        match detect_format(bytes.as_slice()) {
            Err(failure) => Err(failure),
            Ok(ArtifactFormat::CoreModule) => match self.prepare_core(
                artifact,
                bytes.as_slice(),
            ) {
                Ok(prepared) => Ok(CachedStart::Prepared(prepared, PreparationReport::default())),
                Err(failure) => Err(failure),
            },
            Ok(ArtifactFormat::Component) => {
                proof {
                    if artifact.digest_known() is None {
                        let seen = choose|seen: Seq<u8>|
                            digest@ == #[trigger] digest::content_identity(seen)
                                && digest::sha256_digest(seen).len() == 32;
                        lemma_content_digest_cuts(seen);
                    }
                }
                let key = CacheKey {
                    digest,
                    fingerprint: self.http_component_fingerprint.clone(),
                    platform: self.platform.clone(),
                    format: ArtifactFormat::Component,
                    world: "wasi:http/proxy".to_owned(),
                };
                proof {
                    use_type_invariant(self);
                    cache::lemma_names_engine(
                        self.http_component_fingerprint@,
                        self.http_engine.made_with(),
                        ArtifactFormat::Component,
                        http_world(),
                        self.platform,
                        key.platform,
                    );
                }
                let preparation = CachedPreparation::begin(
                    self.http_engine.share(),
                    cache,
                    key,
                    bytes,
                    self.config.compiled_cache_restore,
                    digest_duration,
                );
                Ok(CachedStart::Begun(artifact, preparation))
            },
        }
    }
}

/// What comes of making a runtime. Whether an engine can be made is for the
/// engine to say.
pub open spec fn made_with(
    config: PitRuntimeConfig,
    platform: HostPlatform,
    memory_reservation: Option<u64>,
    made: Result<PitRuntime, Failure>,
) -> bool {
    match config.allocation {
        RuntimeAllocationMode::Pooling { slots } if pool_problem(slots) is Some => made
            matches Err(failure) && failure.message@ == pool_problem(slots)->0,
        _ => match made {
            Ok(runtime) => {
                &&& runtime.controls() == config
                &&& runtime.machine() == platform
                &&& runtime.settings() == engine_settings(config, false, memory_reservation)
                &&& runtime.http_settings() == engine_settings(config, true, memory_reservation)
                &&& cache::names_engine(
                    runtime.http_fingerprint(),
                    runtime.http_settings(),
                    ArtifactFormat::Component,
                    http_world(),
                    platform,
                )
            },
            Err(failure) => unmade(config, memory_reservation, failure),
        },
    }
}

/// Why a runtime could not be made: one of its engines refuses its settings.
pub open spec fn unmade(
    config: PitRuntimeConfig,
    memory_reservation: Option<u64>,
    failure: Failure,
) -> bool {
    ||| failure.says_why("failed to create Wasmtime engine"@) && guest::engine_may_be_made(
        engine_settings(config, false, memory_reservation),
        false,
    )
    ||| failure.says_why("failed to create async HTTP engine"@) && guest::engine_may_be_made(
        engine_settings(config, true, memory_reservation),
        false,
    )
}

/// Why an artifact could not be prepared: it could not be read, it has no header
/// of WebAssembly, or the engine did not compile it.
pub open spec fn refused(
    contents: Option<Seq<u8>>,
    load_problem: Seq<char>,
    settings: EngineSettings,
    http_settings: EngineSettings,
    failure: Failure,
) -> bool {
    match contents {
        None => failure.message@ == load_problem,
        Some(bytes) => match artifact::header_format(bytes) {
            None => failure.says(artifact::reader_problem(bytes)),
            Some(ArtifactFormat::CoreModule) => guest::module_refused(settings, bytes, failure),
            Some(ArtifactFormat::Component) => guest::component_refused(settings, bytes, failure)
                || guest::http_component_refused(http_settings, bytes, failure),
        },
    }
}

/// What comes of preparing an artifact. What cannot be read, or has no header of
/// WebAssembly, is refused. A module can be executed; a component can be
/// executed as a command, and is compiled for HTTP, each in an engine of the
/// runtime. Whether the engine compiles it is for the engine to say.
pub open spec fn prepared_from(
    runtime: PitRuntime,
    artifact: WasmArtifact,
    found: FoundFile,
    prepared: Result<PreparedArtifact, Failure>,
) -> bool {
    match prepared {
        Err(failure) => refused(
            artifact.contents(found),
            artifact.load_problem(found),
            runtime.settings(),
            runtime.http_settings(),
            failure,
        ),
        Ok(ready) => {
            &&& artifact.contents(found) matches Some(bytes)
            &&& artifact::header_format(bytes) matches Some(format)
            &&& ready.wf()
            &&& ready.of() == artifact
            &&& ready.code() == bytes
            &&& ready.runs_in() == Some(runtime.handle())
            &&& ready.is_command() ==> ready.answers_in() == Some(runtime.http_handle())
            &&& ready.is_module() == (format == ArtifactFormat::CoreModule)
            &&& ready.is_command() == (format == ArtifactFormat::Component)
            &&& ready.http_half() == match format {
                ArtifactFormat::CoreModule => HttpHalf::Unprepared,
                ArtifactFormat::Component => HttpHalf::EngineOnly,
            }
        },
    }
}

/// A pool can be had exactly where eight times its slots can be counted in 32 bits;
/// asking for none is asking for one. Where it can, there is a slot for each
/// component, stack and warm slot, and eight for what components are made of.
pub proof fn law_pools_have_their_slots(
    config: PitRuntimeConfig,
    async_support: bool,
    memory_reservation: Option<u64>,
    settings: Result<EngineSettings, Failure>,
)
    requires
        call_ensures(configure_engine, (&config, async_support, memory_reservation), settings),
    ensures
        config.allocation is OnDemand ==> settings is Ok && settings->Ok_0.pooling is None,
        config.allocation matches RuntimeAllocationMode::Pooling { slots } ==> {
            let wanted = if slots == 0 {
                1
            } else {
                slots as int
            };
            &&& (settings is Ok <==> 8 * wanted <= u32::MAX)
            &&& (settings is Ok ==> settings->Ok_0.pooling is Some && {
                let limits = settings->Ok_0.pooling->0;
                &&& limits.component_instances == wanted
                &&& limits.stacks == wanted
                &&& limits.unused_warm_slots == wanted
                &&& limits.core_instances == 8 * wanted
                &&& limits.memories == 8 * wanted
                &&& limits.tables == 8 * wanted
            })
            &&& (wanted > u32::MAX ==> settings is Err && settings->Err_0.message@
                == "pooling slot count exceeds u32"@)
            &&& (wanted <= u32::MAX && 8 * wanted > u32::MAX ==> settings is Err
                && settings->Err_0.message@ == "pooling resource slot count is too large"@)
        },
        settings matches Ok(made) ==> {
            &&& made.epoch_interruption
            &&& made.async_support == async_support
            &&& made.memory_init_cow == config.memory_init_cow
            &&& made.memory_reservation == memory_reservation
        },
{
}

/// An artifact executes a request exactly where the request is valid and for that
/// very artifact, and asks a command for nothing but to be run.
pub proof fn law_requests_are_executed_where_they_fit(
    prepared: PreparedArtifact,
    request: ExecutionRequest,
    cancellation: CancellationToken,
    valid: Result<(), Failure>,
    result: Result<RuntimeExecutionResult, Failure>,
)
    requires
        call_ensures(ExecutionRequest::validate, (&request,), valid),
        call_ensures(PreparedArtifact::execute, (&prepared, &request, cancellation), result),
    ensures
        result is Ok <==> {
            &&& valid is Ok
            &&& request.artifact.identity() == prepared.of().identity()
            &&& prepared.is_command() ==> request.entrypoint@ == "wasi:cli/command"@
        },
        valid is Err ==> result is Err && result->Err_0.message@ == valid->Err_0.message@,
        valid is Ok && request.artifact.identity() != prepared.of().identity() ==> result is Err
            && result->Err_0.says(
            "execution request artifact '"@ + request.artifact.identity()
                + "' does not match prepared artifact '"@ + prepared.of().identity() + "'"@,
        ),
        valid is Ok && request.artifact.identity() == prepared.of().identity() && result is Err
            ==> result->Err_0.says(
            "unsupported WASI Preview 2 entrypoint '"@ + request.entrypoint@ + "'; expected "@
                + "wasi:cli/command"@,
        ),
        result matches Ok(executed) ==> {
            &&& (executed.error is None <==> executed.status == ExecutionStatus::Completed)
            &&& (executed.exit_code == Some(0i32) <==> executed.status
                == ExecutionStatus::Completed)
            &&& (executed.status == ExecutionStatus::TimedOut ==> request.limits.timeout is Some)
            &&& (executed.status == ExecutionStatus::MemoryLimitExceeded
                ==> request.limits.memory_bytes is Some)
        },
{
    if let Ok(executed) = result {
        if admission_problem(prepared, request) is None {
            law_only_limits_are_exceeded(
                run_for(prepared, request, cancellation),
                executed.parts(),
                executed.stdout@,
                executed.stderr@,
            );
        }
    }
}

/// A guest is run with what the request gives it and with nothing else: its
/// arguments behind the name of its program, its variables, its limits and the
/// token that cancels it. A function is named to a module alone.
pub proof fn law_guests_are_run_with_their_request(
    prepared: PreparedArtifact,
    request: ExecutionRequest,
    token: CancellationToken,
)
    ensures
        ({
            let run = run_for(prepared, request, token);
            &&& run.wasm == prepared.code()
            &&& run.args.len() == request.args@.len() + 1
            &&& run.args[0] == request.artifact.name()
            &&& forall|i: int|
                0 <= i < request.args@.len() ==> (#[trigger] request.args@[i])@ == run.args[i + 1]
            &&& run.env.len() == request.env@.len()
            &&& forall|i: int|
                0 <= i < request.env@.len() ==> run.env[i] == (
                    (#[trigger] request.env@[i]).0@,
                    request.env@[i].1@,
                )
            &&& run.memory_limit == request.limits.memory_bytes
            &&& run.timeout == request.limits.timeout
            &&& run.token == token
            &&& (run.entrypoint is None <==> prepared.is_command())
            &&& (run.entrypoint matches Some(name) ==> name == request.entrypoint@)
        }),
{
    let run = run_for(prepared, request, token);
    let given = text::texts(request.args@);
    assert(given.len() == request.args@.len());
    assert forall|i: int| 0 <= i < request.args@.len() implies (#[trigger] request.args@[i])@
        == run.args[i + 1] by {
        assert(given[i] == request.args@[i]@);
    }
}

/// What an execution ended as is what its guest did. It completed only where the
/// guest came back without a failure or left with zero, nobody interrupted it and
/// its memory sufficed, and a code that it left with is the one that is told.
pub proof fn law_executions_end_as_their_guests(
    run: GuestRun,
    returned: GuestReturn,
    signal: ControlSignal,
    memory_exceeded: bool,
    parts: (ExecutionStatus, Option<i32>, Option<Seq<char>>),
    stdout: Seq<u8>,
    stderr: Seq<u8>,
)
    requires
        ended_as(run, returned, signal, memory_exceeded, parts, stdout, stderr),
    ensures
        parts.0 == ExecutionStatus::Completed <==> signal == ControlSignal::Clear
            && !memory_exceeded && (returned == GuestReturn::Returned(true) || (
        returned matches GuestReturn::Failed { exit_code: Some(code), .. } && code == 0)),
        signal == ControlSignal::Clear && !memory_exceeded ==> (
        returned matches GuestReturn::Failed { exit_code, .. } ==> parts.1 == exit_code),
        returned is NotStarted ==> parts.1 is None && parts.0 != ExecutionStatus::Completed,
{
}

/// A runtime that is not told otherwise loads compiled artifacts from their files,
/// keeps no pool, and resolves imports beforehand.
pub proof fn law_runtimes_have_defaults(config: PitRuntimeConfig)
    requires
        call_ensures(PitRuntimeConfig::default, (), config),
    ensures
        config.compiled_cache_restore is FileBacked,
        config.allocation is OnDemand,
        config.memory_init_cow is None,
        config.pre_resolved_imports,
{
}

/// An artifact is prepared only out of its own bytes, as a module or as a command by
/// its first eight bytes, for the engines of the runtime that prepares it. Without
/// bytes, or with bytes of neither kind, it is not.
pub proof fn law_artifacts_are_prepared_by_their_format(
    runtime: PitRuntime,
    artifact: WasmArtifact,
    found: FoundFile,
    prepared: Result<PreparedArtifact, Failure>,
)
    requires
        call_ensures(PitRuntime::prepare, (&runtime, artifact, found), prepared),
    ensures
        prepared matches Ok(ready) ==> {
            &&& ready.of() == artifact
            &&& artifact.bytes() is Some || found is Contents
            &&& artifact.bytes() matches Some(bytes) ==> ready.code() == bytes
            &&& artifact.bytes() is None ==> ready.code() == found->Contents_0@
            &&& ready.code().len() >= 8
            &&& (ready.is_module() <==> ready.code()[4] == 1)
            &&& (ready.is_command() <==> ready.code()[4] == 0x0d)
            &&& ready.runs_in() == Some(runtime.handle())
            &&& (ready.http_half() is Unprepared <==> ready.is_module())
        },
        artifact.bytes() is None && !(found is Contents) ==> prepared is Err,
{
    if let Ok(ready) = prepared {
        let bytes = ready.code();
        let head = bytes.take(8);
        assert(head[4] == bytes[4]);
        assert(module_head(head) || component_head(head));
    }
}

spec fn module_head(head: Seq<u8>) -> bool {
    head == artifact::module_header() && head[4] == 1
}

spec fn component_head(head: Seq<u8>) -> bool {
    head == artifact::component_header() && head[4] == 0x0d
}

/// A module is called at its start, and a command is run.
pub proof fn law_entrypoints_go_by_the_format(
    prepared: PreparedArtifact,
    entrypoint: &'static str,
)
    requires
        prepared.wf(),
        call_ensures(PreparedArtifact::default_entrypoint, (&prepared,), entrypoint),
    ensures
        prepared.is_module() ==> entrypoint@ == "_start"@,
        !prepared.is_module() ==> entrypoint@ == "wasi:cli/command"@,
{
}

/// What an instance takes is measured exactly of requests that are valid and for the
/// artifact; a function need not be named rightly for it.
pub proof fn law_instances_are_measured(
    prepared: PreparedArtifact,
    request: ExecutionRequest,
    valid: Result<(), Failure>,
    measured: Result<Span, Failure>,
)
    requires
        call_ensures(ExecutionRequest::validate, (&request,), valid),
        call_ensures(PreparedArtifact::measure_instantiation, (&prepared, &request), measured),
    ensures
        measured is Ok ==> valid is Ok && request.artifact.identity()
            == prepared.of().identity() && may_start(prepared, request, None),
        valid is Err ==> measured is Err && measured->Err_0.message@ == valid->Err_0.message@,
        valid is Ok && request.artifact.identity() != prepared.of().identity() ==> measured is Err
            && measured->Err_0.says(
            "execution request artifact does not match prepared artifact"@,
        ),
{
}

/// An artifact that is prepared to answer alone is neither a module nor a command,
/// and its imports are resolved as was asked. A command that is resolved keeps what
/// it was.
pub proof fn law_artifacts_are_prepared_to_answer(
    artifact: WasmArtifact,
    pre_resolved: bool,
    answering: PreparedArtifact,
    command: PreparedArtifact,
    resolved: PreparedArtifact,
)
    requires
        call_ensures(PreparedArtifact::for_http, (artifact, pre_resolved), answering),
        call_ensures(PreparedArtifact::resolved, (command,), resolved),
    ensures
        answering.of() == artifact,
        !answering.is_module() && !answering.is_command(),
        answering.http_half() is Resolved <==> pre_resolved,
        answering.http_half() is Unresolved <==> !pre_resolved,
        resolved.of() == command.of(),
        resolved.code() == command.code(),
        resolved.http_half() is Resolved,
{
}

/// A component that is prepared with a cache is looked up there first, under its own
/// digest and for this runtime's engine for requests; a module has no part in the
/// cache.
pub proof fn law_components_are_looked_up_first(
    runtime: PitRuntime,
    artifact: WasmArtifact,
    found: FoundFile,
    cache: CompiledCacheConfig,
    start: Result<CachedStart, Failure>,
)
    requires
        call_ensures(PitRuntime::prepare_http_cached, (&runtime, artifact, found, &cache), start),
    ensures
        artifact.contents(found) is None ==> start is Err,
        artifact.contents(found) matches Some(bytes) ==> {
            &&& (artifact::header_format(bytes) is None ==> start is Err)
            &&& (artifact::header_format(bytes) == Some(ArtifactFormat::Component) ==> start is Ok
                && start->Ok_0 is Begun)
            &&& (artifact::header_format(bytes) == Some(ArtifactFormat::CoreModule) && start is Ok
                ==> start->Ok_0 is Prepared)
        },
        start matches Ok(CachedStart::Begun(kept, preparation)) ==> {
            &&& kept == artifact
            &&& preparation.next() == Phase::LookUp
            &&& preparation.wanted().digest@ == artifact.settled_digest()
            &&& preparation.wanted().fingerprint@ == runtime.http_fingerprint()
            &&& preparation.wanted().world@ == "wasi:http/proxy"@
            &&& preparation.artifact_bytes() == artifact.contents(found)->0
            &&& preparation.restore_mode() == runtime.controls().compiled_cache_restore
        },
{
}

} // verus!

//! Guests: WebAssembly modules and components, and the engine that runs them.

use vstd::prelude::*;
use wasmtime::component::{Component, Linker as ComponentLinker};
use wasmtime::{
    Config, Engine, Instance, InstanceAllocationStrategy, Linker, Module, PoolingAllocationConfig,
    ResourceLimiter, Store, UpdateDeadline,
};
use wasmtime_wasi::p1::WasiP1Ctx;
use wasmtime_wasi::p2::bindings::sync::Command;
use wasmtime_wasi::p2::pipe::MemoryOutputPipe;
use wasmtime_wasi::{I32Exit, WasiCtxBuilder, WasiCtxView, WasiView};

use crate::clock::Span;
use crate::failure::Failure;
use crate::outcome::{
    CancellationToken, ControlSignal, ExecutionControl, GuestOutcome, RuntimeLimiter,
};
use crate::{outcome, text};

verus! {

/// An error of the engine, carried through as it is.
#[verifier::external_type_specification]
#[verifier::external_body]
pub struct ExError(anyhow::Error);

/// A WebAssembly engine, carried through as it is.
#[verifier::external_type_specification]
#[verifier::external_body]
pub struct ExEngine(Engine);

/// A compiled module, carried through as it is.
#[verifier::external_type_specification]
#[verifier::external_body]
pub struct ExModule(Module);

/// A compiled component, carried through as it is.
#[verifier::external_type_specification]
#[verifier::external_body]
pub struct ExComponent(Component);

/// What the imports of a module are bound to, carried through as it is.
#[verifier::external_type_specification]
#[verifier::external_body]
#[verifier::reject_recursive_types(T)]
pub struct ExLinker<T>(Linker<T>);

/// What the imports of a component are bound to, carried through as it is.
#[verifier::external_type_specification]
#[verifier::external_body]
#[verifier::reject_recursive_types(T)]
pub struct ExComponentLinker<T: 'static>(ComponentLinker<T>);

/// The state of one guest, carried through as it is.
#[verifier::external_type_specification]
#[verifier::external_body]
#[verifier::reject_recursive_types(T)]
pub struct ExStore<T: 'static>(Store<T>);

/// An instance of a module, carried through as it is.
#[verifier::external_type_specification]
#[verifier::external_body]
pub struct ExInstance(Instance);

/// An instance of a command component, carried through as it is.
#[verifier::external_type_specification]
#[verifier::external_body]
pub struct ExCommand(Command);

/// What a guest sees of its host, carried through as it is.
#[verifier::external_type_specification]
#[verifier::external_body]
pub struct ExWasiP1Ctx(WasiP1Ctx);

/// A loan of what a guest sees of its host, carried through as it is.
#[verifier::external_type_specification]
#[verifier::external_body]
pub struct ExWasiCtxView<'a>(WasiCtxView<'a>);

/// A pipe into memory, carried through as it is.
#[verifier::external_type_specification]
#[verifier::external_body]
pub struct ExMemoryOutputPipe(MemoryOutputPipe);

/// `anyhow::Error::to_string`. Nothing is claimed of the text.
#[verifier::external_body]
pub(crate) fn error_text(error: &anyhow::Error) -> String {
    error.to_string()
}

/// The error with everything that caused it, as `anyhow::Error` is formatted in
/// its alternate form. Nothing is claimed of the text.
#[verifier::external_body]
pub(crate) fn error_chain_text(error: &anyhow::Error) -> String {
    format!("{:#}", error)
}

/// `anyhow::Error::msg`. Nothing is claimed of the error.
#[verifier::external_body]
fn error_saying(message: String) -> anyhow::Error {
    anyhow::Error::msg(message)
}

/// How many slots of each kind a pool of instances has.
#[derive(Debug, Clone, Copy, PartialEq, Eq, Structural)]
pub struct PoolingLimits {
    pub component_instances: u32,
    pub core_instances: u32,
    pub memories: u32,
    pub tables: u32,
    pub stacks: u32,
    pub unused_warm_slots: u32,
}

/// The settings that an engine is made with.
#[derive(Debug, Clone, Copy, PartialEq, Eq, Structural)]
pub struct EngineSettings {
    /// Guests can be interrupted at a tick of the epoch.
    pub epoch_interruption: bool,
    /// Guests run in futures.
    pub async_support: bool,
    /// Whether memories start as copy-on-write mappings; the engine decides
    /// where nothing is set.
    pub memory_init_cow: Option<bool>,
    /// How many bytes of address space a memory reserves, and reserves to grow
    /// into; the engine decides where nothing is set.
    pub memory_reservation: Option<u64>,
    /// The slots of the pool, where instances come out of one.
    pub pooling: Option<PoolingLimits>,
}

/// The configuration of a pool of instances, carried through as it is.
#[verifier::external_type_specification]
#[verifier::external_body]
pub struct ExPoolingAllocationConfig(PoolingAllocationConfig);

/// A pool of instances, and how many slots of each kind it has.
pub struct InstancePool {
    config: PoolingAllocationConfig,
    limits: PoolingLimits,
}

impl InstancePool {
    /// How many slots of each kind the pool has.
    pub closed spec fn slots(&self) -> PoolingLimits {
        self.limits
    }
}

/// `wasmtime::PoolingAllocationConfig::new` with the limits of the same names.
/// The pool is said to have these.
#[verifier::external_body]
fn pool_with(limits: PoolingLimits) -> (pool: InstancePool)
    ensures
        pool.slots() == limits,
{
    let mut config = PoolingAllocationConfig::new();
    config.total_component_instances(limits.component_instances);
    config.total_core_instances(limits.core_instances);
    config.total_memories(limits.memories);
    config.total_tables(limits.tables);
    config.total_stacks(limits.stacks);
    config.max_unused_warm_slots(limits.unused_warm_slots);
    InstancePool { config, limits }
}

/// An engine, and the settings that it was made with.
pub struct GuestEngine {
    engine: Engine,
    settings: EngineSettings,
}

impl GuestEngine {
    /// The settings that the engine was made with.
    pub closed spec fn made_with(&self) -> EngineSettings {
        self.settings
    }

    /// The engine itself.
    pub closed spec fn handle(&self) -> Engine {
        self.engine
    }

    /// The engine itself.
    pub fn inner(&self) -> (engine: &Engine)
        ensures
            *engine == self.handle(),
    {
        &self.engine
    }

    /// The same engine once more.
    pub fn share(&self) -> (same: GuestEngine)
        ensures
            same == *self,
    {
        GuestEngine { engine: same_engine(&self.engine), settings: self.settings }
    }
}

/// Whether a pool is the one that the settings ask for.
pub open spec fn pool_fits(settings: EngineSettings, pool: Option<InstancePool>) -> bool {
    match (settings.pooling, pool) {
        (Some(limits), Some(pool)) => pool.slots() == limits,
        (None, None) => true,
        _ => false,
    }
}

/// Whether an engine with these settings can be made, or not. Machines differ.
pub uninterp spec fn engine_may_be_made(settings: EngineSettings, made: bool) -> bool;

/// `wasmtime::Engine::new` with a configuration that holds the settings: the
/// switches of the same names in `wasmtime::Config`, and the pool. An engine that
/// comes back is said to have these settings, and otherwise that the engine may
/// refuse them; whether one comes back is not said.
#[verifier::external_body]
fn engine_with(settings: &EngineSettings, pool: Option<InstancePool>) -> (made: Result<
    GuestEngine,
    anyhow::Error,
>)
    requires
        pool_fits(*settings, pool),
    ensures
        engine_may_be_made(*settings, made is Ok),
        made matches Ok(engine) ==> engine.made_with() == *settings,
{
    let mut config = Config::new();
    config.epoch_interruption(settings.epoch_interruption).async_support(settings.async_support);
    if let Some(cow) = settings.memory_init_cow {
        config.memory_init_cow(cow);
    }
    if let Some(bytes) = settings.memory_reservation {
        config.memory_reservation(bytes).memory_reservation_for_growth(bytes);
    }
    if let Some(pool) = pool {
        config.allocation_strategy(InstanceAllocationStrategy::Pooling(pool.config));
    }
    Ok(GuestEngine { engine: Engine::new(&config)?, settings: *settings })
}

/// Makes an engine with these settings. Whether it can be made is for the engine
/// to say.
pub(crate) fn new_engine(settings: &EngineSettings) -> (made: Result<GuestEngine, anyhow::Error>)
    ensures
        engine_may_be_made(*settings, made is Ok),
        made matches Ok(engine) ==> engine.made_with() == *settings,
{
    let pool = match settings.pooling {
        Some(limits) => Some(pool_with(limits)),
        None => None,
    };
    engine_with(settings, pool)
}

/// `wasmtime::Engine::clone`. An engine is a shared pointer, so what comes back
/// is the same engine.
#[verifier::external_body]
pub(crate) fn same_engine(engine: &Engine) -> (same: Engine)
    ensures
        same == *engine,
{
    engine.clone()
}

/// `wasmtime::Engine::increment_epoch`.
#[verifier::external_body]
pub(crate) fn tick(engine: &Engine) {
    engine.increment_epoch()
}

/// A compiled module, with the bytes that it was compiled from and the engine
/// that it was compiled for.
pub struct CompiledModule {
    module: Module,
    wasm: Ghost<Seq<u8>>,
    engine: Ghost<GuestEngine>,
}

impl CompiledModule {
    /// The bytes that the module was compiled from.
    pub closed spec fn compiled_from(&self) -> Seq<u8> {
        self.wasm@
    }

    /// The engine that the module was compiled for.
    pub closed spec fn home(&self) -> GuestEngine {
        self.engine@
    }
}

/// A compiled component, with the bytes that it was compiled from and the engine
/// that it was compiled for.
pub struct CompiledComponent {
    component: Component,
    wasm: Ghost<Seq<u8>>,
    engine: Ghost<GuestEngine>,
}

impl CompiledComponent {
    /// The bytes that the component was compiled from.
    pub closed spec fn compiled_from(&self) -> Seq<u8> {
        self.wasm@
    }

    /// The engine that the component was compiled for.
    pub closed spec fn home(&self) -> GuestEngine {
        self.engine@
    }

    /// The component itself.
    pub closed spec fn handle(&self) -> Component {
        self.component
    }

    /// The component itself.
    pub fn inner(&self) -> (component: &Component)
        ensures
            *component == self.handle(),
    {
        &self.component
    }
}

/// Whether an engine with these settings can load a module of these bytes, or
/// not.
pub uninterp spec fn module_may_load(settings: EngineSettings, wasm: Seq<u8>, loaded: bool) -> bool;

/// Whether an engine with these settings can load a component of these bytes, or
/// not.
pub uninterp spec fn component_may_load(
    settings: EngineSettings,
    wasm: Seq<u8>,
    loaded: bool,
) -> bool;

/// `wasmtime::Module::from_binary`. A module that comes back is said to be that
/// of the bytes, for the engine, and otherwise that such an engine may refuse
/// them; which bytes are compiled is not said.
#[verifier::external_body]
fn compile_module(engine: &GuestEngine, bytes: &[u8]) -> (compiled: Result<
    CompiledModule,
    anyhow::Error,
>)
    ensures
        module_may_load(engine.made_with(), bytes@, compiled is Ok),
        compiled matches Ok(module) ==> module.compiled_from() == bytes@ && module.home()
            == *engine,
{
    let module = Module::from_binary(&engine.engine, bytes)?;
    Ok(CompiledModule { module, wasm: Ghost(bytes@), engine: Ghost(*engine) })
}

/// `wasmtime::component::Component::new`. A component that comes back is said to
/// be that of the bytes, for the engine, and otherwise that such an engine may
/// refuse them; which bytes are compiled is not said.
#[verifier::external_body]
fn compile_component(engine: &GuestEngine, bytes: &[u8]) -> (compiled: Result<
    CompiledComponent,
    anyhow::Error,
>)
    ensures
        component_may_load(engine.made_with(), bytes@, compiled is Ok),
        compiled matches Ok(component) ==> component.compiled_from() == bytes@ && component.home()
            == *engine,
{
    let component = Component::new(&engine.engine, bytes)?;
    Ok(CompiledComponent { component, wasm: Ghost(bytes@), engine: Ghost(*engine) })
}

/// What a guest is run with.
pub struct GuestRun {
    /// The bytes of its module or component.
    pub wasm: Seq<u8>,
    /// The function that is called, once one is.
    pub entrypoint: Option<Seq<char>>,
    /// Its arguments, the name of the program among them.
    pub args: Seq<Seq<char>>,
    /// The variables that it sees.
    pub env: Seq<(Seq<char>, Seq<char>)>,
    /// How much memory it may have.
    pub memory_limit: Option<usize>,
    /// How long it may take.
    pub timeout: Option<Span>,
    /// The token that it can be cancelled with.
    pub token: CancellationToken,
    /// After how many ticks of the epoch it is looked at, to go on or to be
    /// interrupted; without any it is not.
    pub ticks: Option<u64>,
    /// How many bytes of each of its outputs are kept.
    pub capacity: usize,
    /// Whether a command can leave with a code of its own. A module always can.
    pub exit_codes: bool,
}

/// What the engine says of a guest that was called.
#[derive(Debug)]
pub enum GuestReturn {
    /// There was nothing to call; the text says why.
    NotStarted(String),
    /// The guest came back, and said that it succeeded or not.
    Returned(bool),
    /// The guest did not come back; the text says why, and the code is the one
    /// that it left with, if it left with one.
    Failed { text: String, exit_code: Option<i32> },
}

/// Whether a guest can end so: what the engine says of the call, why the guest
/// was interrupted, whether it asked for more memory than it may have, and what
/// it wrote to its two outputs, as far as that is kept. A guest that is run twice
/// may end in two ways.
pub uninterp spec fn guest_may_end(
    run: GuestRun,
    returned: GuestReturn,
    signal: ControlSignal,
    memory_exceeded: bool,
    stdout: Seq<u8>,
    stderr: Seq<u8>,
) -> bool;

/// What a guest sees of its host.
pub struct GuestContext {
    wasi: WasiP1Ctx,
    stdout: MemoryOutputPipe,
    stderr: MemoryOutputPipe,
    args: Ghost<Seq<Seq<char>>>,
    env: Ghost<Seq<(Seq<char>, Seq<char>)>>,
    capacity: Ghost<usize>,
}

impl GuestContext {
    /// The arguments that the guest sees.
    pub closed spec fn argv(&self) -> Seq<Seq<char>> {
        self.args@
    }

    /// The variables that the guest sees.
    pub closed spec fn variables(&self) -> Seq<(Seq<char>, Seq<char>)> {
        self.env@
    }

    /// How many bytes of each output are kept.
    pub closed spec fn room(&self) -> usize {
        self.capacity@
    }
}

/// A context of `wasmtime_wasi::WasiCtxBuilder` that is given these arguments,
/// this environment and two fresh pipes of `MemoryOutputPipe::new` with this
/// capacity for the outputs, and nothing else of the host. The guest is said to
/// see these.
#[verifier::external_body]
fn guest_context(args: &Vec<String>, env: &Vec<(String, String)>, capacity: usize) -> (context:
    GuestContext)
    ensures
        context.argv() == text::texts(args@),
        context.variables() == text::text_pairs(env@),
        context.room() == capacity,
{
    let stdout = MemoryOutputPipe::new(capacity);
    let stderr = MemoryOutputPipe::new(capacity);
    let mut builder = WasiCtxBuilder::new();
    builder.args(args).envs(env).stdout(stdout.clone()).stderr(stderr.clone());
    let wasi = builder.build_p1();
    let args = Ghost(text::texts(args@));
    let env = Ghost(text::text_pairs(env@));
    GuestContext { wasi, stdout, stderr, args, env, capacity: Ghost(capacity) }
}

/// What the host holds of one guest.
pub struct HostState {
    context: GuestContext,
    limits: RuntimeLimiter,
    control: ExecutionControl,
}

impl HostState {
    /// What the guest sees of its host.
    pub closed spec fn seen(&self) -> GuestContext {
        self.context
    }

    /// The limit on the guest's memory, and whether it asked for more.
    pub closed spec fn limiter(&self) -> RuntimeLimiter {
        self.limits
    }

    /// What watches the guest.
    pub closed spec fn watcher(&self) -> ExecutionControl {
        self.control
    }

    /// What a guest of these bytes would be run with, before it is called.
    pub open spec fn run_of(&self, wasm: Seq<u8>) -> GuestRun {
        GuestRun {
            wasm,
            entrypoint: None,
            args: self.seen().argv(),
            env: self.seen().variables(),
            memory_limit: self.limiter().memory_limit,
            timeout: self.watcher().limit(),
            token: self.watcher().origin().0,
            ticks: None,
            capacity: self.seen().room(),
            exit_codes: true,
        }
    }

    /// Whether nothing has happened to the guest yet.
    pub open spec fn fresh(&self) -> bool {
        !self.limiter().memory_exceeded && self.watcher().raised() == ControlSignal::Clear
    }

    /// Whether the guest asked for more memory than it may have.
    pub fn memory_exceeded(&self) -> (exceeded: bool)
        ensures
            exceeded == self.limiter().memory_exceeded,
    {
        self.limits.memory_exceeded
    }

    /// Why the guest was interrupted, if it was.
    pub fn signal(&self) -> (signal: ControlSignal)
        ensures
            signal == self.watcher().raised(),
    {
        self.control.signal()
    }

    /// What the host holds of a guest that is run with these arguments and this
    /// environment, and within these limits. All of its outputs are kept.
    pub fn new(
        args: &Vec<String>,
        env: &Vec<(String, String)>,
        limits: RuntimeLimiter,
        control: ExecutionControl,
    ) -> (state: HostState)
        ensures
            state.seen().argv() == text::texts(args@),
            state.seen().variables() == text::text_pairs(env@),
            state.seen().room() == usize::MAX,
            state.limiter() == limits,
            state.watcher() == control,
    {
        HostState { context: guest_context(args, env, usize::MAX), limits, control }
    }
}

impl ResourceLimiter for RuntimeLimiter {
    fn memory_growing(&mut self, _current: usize, desired: usize, _maximum: Option<usize>) -> (grown:
        Result<bool, anyhow::Error>)
        ensures
            final(self).memory_limit == old(self).memory_limit,
            final(self).memory_exceeded == (old(self).memory_exceeded || outcome::over_limit(
                old(self).memory_limit,
                desired,
            )),
            grown is Err <==> outcome::over_limit(old(self).memory_limit, desired),
            grown matches Ok(admitted) ==> admitted,
    {
        match self.admit_memory(desired) {
            Ok(admitted) => Ok(admitted),
            Err(failure) => Err(error_saying(failure.message)),
        }
    }

    fn table_growing(&mut self, _current: usize, _desired: usize, _maximum: Option<usize>) -> (grown:
        Result<bool, anyhow::Error>)
        ensures
            *final(self) == *old(self),
            grown matches Ok(admitted) && admitted,
    {
        Ok(true)
    }
}

impl WasiView for HostState {
    /// `wasmtime_wasi::WasiView::ctx` of the guest's view of its host.
    #[verifier::external_body]
    fn ctx(&mut self) -> WasiCtxView<'_> {
        self.context.wasi.ctx()
    }
}

/// What the imports of a module are bound to, and the engine that it is for.
pub struct ModuleLinker {
    linker: Linker<HostState>,
    engine: Ghost<GuestEngine>,
}

impl ModuleLinker {
    /// The engine that the linker is for.
    pub closed spec fn home(&self) -> GuestEngine {
        self.engine@
    }
}

/// What the imports of a command are bound to, the engine that it is for, and
/// whether a command can leave with a code of its own.
pub struct CommandLinker {
    linker: ComponentLinker<HostState>,
    engine: Ghost<GuestEngine>,
    exit_codes: Ghost<bool>,
}

impl CommandLinker {
    /// The engine that the linker is for.
    pub closed spec fn home(&self) -> GuestEngine {
        self.engine@
    }

    /// Whether a command can leave with a code of its own.
    pub closed spec fn has_exit_codes(&self) -> bool {
        self.exit_codes@
    }
}

/// Whether the WASI functions can be bound for an engine with these settings, or
/// not.
pub uninterp spec fn module_may_link(settings: EngineSettings, linked: bool) -> bool;

/// Whether the WASI interfaces can be bound for an engine with these settings, or
/// not.
pub uninterp spec fn component_may_link(
    settings: EngineSettings,
    exit_codes: bool,
    linked: bool,
) -> bool;

/// `wasmtime::Linker::new`, with the WASI functions of
/// `wasmtime_wasi::p1::add_to_linker_sync` in it. What comes back is said to be
/// for the engine, and otherwise that the functions may not be bound; whether it
/// comes back is not said.
#[verifier::external_body]
fn module_linker(engine: &GuestEngine) -> (made: Result<ModuleLinker, anyhow::Error>)
    ensures
        module_may_link(engine.made_with(), made is Ok),
        made matches Ok(linker) ==> linker.home() == *engine,
{
    let mut linker = Linker::new(&engine.engine);
    wasmtime_wasi::p1::add_to_linker_sync(&mut linker, |state: &mut HostState| {
        &mut state.context.wasi
    })?;
    Ok(ModuleLinker { linker, engine: Ghost(*engine) })
}

/// `wasmtime::component::Linker::new`, with the WASI interfaces of
/// `wasmtime_wasi::p2::add_to_linker_with_options_sync` in it, where a guest may
/// or may not exit with a code. What comes back is said to be for the engine and
/// to have this option, and otherwise that the interfaces may not be bound;
/// whether it comes back is not said.
#[verifier::external_body]
fn component_linker(engine: &GuestEngine, exit_with_code: bool) -> (made: Result<
    CommandLinker,
    anyhow::Error,
>)
    ensures
        component_may_link(engine.made_with(), exit_with_code, made is Ok),
        made matches Ok(linker) ==> linker.home() == *engine && linker.has_exit_codes()
            == exit_with_code,
{
    let mut linker = ComponentLinker::new(&engine.engine);
    let mut options = wasmtime_wasi::p2::bindings::sync::LinkOptions::default();
    options.cli_exit_with_code(exit_with_code);
    wasmtime_wasi::p2::add_to_linker_with_options_sync(&mut linker, &options)?;
    Ok(CommandLinker { linker, engine: Ghost(*engine), exit_codes: Ghost(exit_with_code) })
}

/// A module that is ready to run, with the engine that it was compiled for and
/// the functions that it may import.
pub struct PreparedModule {
    engine: GuestEngine,
    module: CompiledModule,
    linker: ModuleLinker,
}

impl PreparedModule {
    /// The bytes of the module.
    pub closed spec fn code(&self) -> Seq<u8> {
        self.module.compiled_from()
    }

    /// The engine that guests of the module run in.
    pub closed spec fn home(&self) -> GuestEngine {
        self.engine
    }

    /// The module and what it imports are for the engine, which does not run
    /// guests in futures.
    #[verifier::type_invariant]
    pub closed spec fn sound(self) -> bool {
        &&& self.module.home() == self.engine
        &&& self.linker.home() == self.engine
        &&& !self.engine.made_with().async_support
    }
}

/// A component that is ready to run, with the engine that it was compiled for
/// and the interfaces that it may import.
pub struct PreparedComponent {
    engine: GuestEngine,
    component: CompiledComponent,
    linker: CommandLinker,
}

impl PreparedComponent {
    /// The bytes of the component.
    pub closed spec fn code(&self) -> Seq<u8> {
        self.component.compiled_from()
    }

    /// The engine that guests of the component run in.
    pub closed spec fn home(&self) -> GuestEngine {
        self.engine
    }

    /// Whether a guest of the component can leave with a code of its own.
    pub closed spec fn has_exit_codes(&self) -> bool {
        self.linker.has_exit_codes()
    }

    /// The component and what it imports are for the engine, which does not run
    /// guests in futures, and commands can leave with codes of their own.
    #[verifier::type_invariant]
    pub closed spec fn sound(self) -> bool {
        &&& self.component.home() == self.engine
        &&& self.linker.home() == self.engine
        &&& self.linker.has_exit_codes()
        &&& !self.engine.made_with().async_support
    }
}

/// Why a module could not be prepared: the engine refuses its bytes, or to bind
/// what it imports.
pub open spec fn module_refused(
    settings: EngineSettings,
    wasm: Seq<u8>,
    failure: Failure,
) -> bool {
    ||| failure.says_why("WASM module preparation failed"@) && module_may_load(
        settings,
        wasm,
        false,
    )
    ||| failure.says_why("failed to link WASI Preview 1 imports"@) && module_may_link(
        settings,
        false,
    )
}

/// Why a component could not be prepared as a command: the engine refuses to bind
/// what it imports, or its bytes.
pub open spec fn component_refused(
    settings: EngineSettings,
    wasm: Seq<u8>,
    failure: Failure,
) -> bool {
    ||| failure.says_why("failed to link WASI Preview 2"@) && component_may_link(
        settings,
        true,
        false,
    )
    ||| failure.says_why("WASM component preparation failed"@) && component_may_load(
        settings,
        wasm,
        false,
    )
}

/// Why a component could not be prepared for HTTP: the engine refuses its bytes.
pub open spec fn http_component_refused(
    settings: EngineSettings,
    wasm: Seq<u8>,
    failure: Failure,
) -> bool {
    failure.says_why("WASM HTTP component preparation failed"@) && component_may_load(
        settings,
        wasm,
        false,
    )
}

/// Compiles a module and binds what it may import, for an engine that does not
/// run guests in futures.
pub(crate) fn prepare_module(engine: &GuestEngine, bytes: &[u8]) -> (prepared: Result<
    PreparedModule,
    Failure,
>)
    requires
        !engine.made_with().async_support,
    ensures
        match prepared {
            Ok(module) => module.code() == bytes@ && module.home() == *engine,
            Err(failure) => module_refused(engine.made_with(), bytes@, failure),
        },
{
    let module = match compile_module(engine, bytes) {
        Ok(module) => module,
        Err(error) => {
            return Err(
                Failure::caused("WASM module preparation failed", error_chain_text(&error)),
            );
        },
    };
    let linker = match module_linker(engine) {
        Ok(linker) => linker,
        Err(error) => {
            return Err(
                Failure::caused("failed to link WASI Preview 1 imports", error_chain_text(&error)),
            );
        },
    };
    Ok(PreparedModule { engine: engine.share(), module, linker })
}

/// Binds what a component may import and compiles it, for an engine that does not
/// run guests in futures.
pub(crate) fn prepare_component(engine: &GuestEngine, bytes: &[u8]) -> (prepared: Result<
    PreparedComponent,
    Failure,
>)
    requires
        !engine.made_with().async_support,
    ensures
        match prepared {
            Ok(component) => component.code() == bytes@ && component.home() == *engine,
            Err(failure) => component_refused(engine.made_with(), bytes@, failure),
        },
{
    let linker = match component_linker(engine, true) {
        Ok(linker) => linker,
        Err(error) => {
            return Err(Failure::caused("failed to link WASI Preview 2", error_chain_text(&error)));
        },
    };
    let component = match compile_component(engine, bytes) {
        Ok(component) => component,
        Err(error) => {
            return Err(
                Failure::caused("WASM component preparation failed", error_chain_text(&error)),
            );
        },
    };
    Ok(PreparedComponent { engine: engine.share(), component, linker })
}

/// Compiles a component for an engine that runs guests in futures.
pub(crate) fn prepare_http_component(engine: &GuestEngine, bytes: &[u8]) -> (prepared: Result<
    CompiledComponent,
    Failure,
>)
    ensures
        match prepared {
            Ok(component) => component.compiled_from() == bytes@ && component.home() == *engine,
            Err(failure) => http_component_refused(engine.made_with(), bytes@, failure),
        },
{
    match compile_component(engine, bytes) {
        Ok(component) => Ok(component),
        Err(error) => Err(
            Failure::caused("WASM HTTP component preparation failed", error_chain_text(&error)),
        ),
    }
}

/// A guest in a store of its own.
pub struct Guest {
    store: Store<HostState>,
    run: Ghost<GuestRun>,
    returned: Ghost<Option<GuestReturn>>,
    engine: Ghost<GuestEngine>,
    number: Ghost<int>,
}

impl Guest {
    /// What the guest is run with.
    pub closed spec fn run(&self) -> GuestRun {
        self.run@
    }

    /// What the engine said of the guest, once it was called.
    pub closed spec fn returned(&self) -> Option<GuestReturn> {
        self.returned@
    }

    /// The engine that the guest runs in.
    pub closed spec fn home(&self) -> GuestEngine {
        self.engine@
    }

    /// The number of the guest's store.
    pub closed spec fn store_number(&self) -> int {
        self.number@
    }
}

/// An instance of a module, and the guest that it belongs to.
pub struct GuestInstance {
    instance: Instance,
    number: Ghost<int>,
}

impl GuestInstance {
    /// The number of the store that the instance lives in.
    pub closed spec fn store_number(&self) -> int {
        self.number@
    }
}

/// An instance of a command, and the guest that it belongs to.
pub struct GuestCommand {
    command: Command,
    number: Ghost<int>,
}

impl GuestCommand {
    /// The number of the store that the instance lives in.
    pub closed spec fn store_number(&self) -> int {
        self.number@
    }
}

/// `wasmtime::Store::new` with the limiter of the state, in an engine that does
/// not run guests in futures. Where a tick is given, the guest is looked at after
/// so many ticks of the epoch, and then goes on or is interrupted as the control
/// in its state decides; the epoch counts milliseconds, so that one tick more is
/// always a number. The guest is said to be run with what the state holds and to
/// be looked at so, and not to have been called.
#[verifier::external_body]
fn new_guest(engine: &GuestEngine, state: HostState, ticks: Option<u64>) -> (guest: Guest)
    requires
        state.fresh(),
        !engine.made_with().async_support,
        ticks matches Some(count) ==> count <= 1,
    ensures
        guest.run() == (GuestRun { ticks, ..state.run_of(Seq::empty()) }),
        guest.returned() is None,
        guest.home() == *engine,
{
    let run = Ghost(GuestRun { ticks, ..state.run_of(Seq::empty()) });
    let mut store = Store::new(&engine.engine, state);
    store.limiter(|state| &mut state.limits);
    if let Some(ticks) = ticks {
        store.set_epoch_deadline(ticks);
        store.epoch_deadline_callback(|mut guest| {
            Ok(match guest.data_mut().control.check() {
                Some(ticks) => UpdateDeadline::Continue(ticks),
                None => UpdateDeadline::Interrupt,
            })
        });
    }
    Guest { store, run, returned: Ghost(None), engine: Ghost(*engine), number: Ghost(arbitrary()) }
}

/// Whether an instance of a module can be made so for a guest that is run with
/// this: without a problem, or with one that the text says. Two attempts may go
/// two ways.
pub uninterp spec fn module_may_start(run: GuestRun, problem: Option<Seq<char>>) -> bool;

/// Whether an instance of a command component can be made so for a guest that is
/// run with this: without a problem, or with one that the text says. Two attempts
/// may go two ways.
pub uninterp spec fn component_may_start(run: GuestRun, problem: Option<Seq<char>>) -> bool;

/// `wasmtime::Linker::instantiate`. The guest is of the engine that the module
/// and the linker are of, and is said to be run with the module from here on.
/// What comes back may come back for such a guest; where it is no instance, the
/// text of the error is what the engine says of the guest. Whether an instance
/// comes back is not said.
#[verifier::external_body]
fn instantiate_module(prepared: &PreparedModule, guest: &mut Guest) -> (instance: Result<
    GuestInstance,
    GuestReturn,
>)
    requires
        prepared.sound(),
        old(guest).home() == prepared.home(),
    ensures
        final(guest).home() == old(guest).home(),
        final(guest).store_number() == old(guest).store_number(),
        final(guest).run() == (GuestRun { wasm: prepared.code(), ..old(guest).run() }),
        match instance {
            Ok(made) => {
                &&& module_may_start(final(guest).run(), None)
                &&& final(guest).returned() == old(guest).returned()
                &&& made.store_number() == final(guest).store_number()
            },
            Err(returned) => final(guest).returned() == Some(returned) && (returned
                matches GuestReturn::NotStarted(text) && module_may_start(
                final(guest).run(),
                Some(text@),
            )),
        },
{
    match prepared.linker.linker.instantiate(&mut guest.store, &prepared.module.module) {
        Ok(instance) => Ok(GuestInstance { instance, number: guest.number }),
        Err(error) => Err(GuestReturn::NotStarted(error.to_string())),
    }
}

/// `wasmtime::Instance::get_typed_func` for a function that takes and returns
/// nothing, and, where there is one, `wasmtime::TypedFunc::call`. The instance
/// is of the guest, which is said to be called with this name and to be answered
/// for by what comes back: the text of the error, and the code of the
/// `wasmtime_wasi::I32Exit` among the causes of `anyhow::Error::chain`, if there
/// is one. Which of these comes back is not said.
#[verifier::external_body]
fn call_function(instance: &GuestInstance, guest: &mut Guest, name: &str) -> (returned: GuestReturn)
    requires
        instance.store_number() == old(guest).store_number(),
        !old(guest).home().made_with().async_support,
    ensures
        final(guest).run() == (GuestRun { entrypoint: Some(name@), ..old(guest).run() }),
        final(guest).returned() == Some(returned),
        returned != GuestReturn::Returned(false),
{
    let start = match instance.instance.get_typed_func::<(), ()>(&mut guest.store, name) {
        Ok(start) => start,
        Err(error) => return GuestReturn::NotStarted(error.to_string()),
    };
    match start.call(&mut guest.store, ()) {
        Ok(()) => GuestReturn::Returned(true),
        Err(error) => GuestReturn::Failed {
            text: error.to_string(),
            exit_code: error.chain().find_map(|cause| {
                cause.downcast_ref().map(|exit: &I32Exit| exit.0)
            }),
        },
    }
}

/// `Command::instantiate`. The guest is of the engine that the component and the
/// linker are of, and is said to be run with the component from here on. What
/// comes back may come back for such a guest; where it is no command, the text of
/// the error is what the engine says of the guest. Whether a command comes back
/// is not said.
#[verifier::external_body]
fn instantiate_component(prepared: &PreparedComponent, guest: &mut Guest) -> (command: Result<
    GuestCommand,
    GuestReturn,
>)
    requires
        prepared.sound(),
        old(guest).home() == prepared.home(),
    ensures
        final(guest).home() == old(guest).home(),
        final(guest).store_number() == old(guest).store_number(),
        final(guest).run() == (GuestRun { 
            wasm: prepared.code(),
            exit_codes: prepared.has_exit_codes(),
            ..old(guest).run()
        }),
        match command {
            Ok(made) => {
                &&& component_may_start(final(guest).run(), None)
                &&& final(guest).returned() == old(guest).returned()
                &&& made.store_number() == final(guest).store_number()
            },
            Err(returned) => final(guest).returned() == Some(returned) && (returned
                matches GuestReturn::NotStarted(text) && component_may_start(
                final(guest).run(),
                Some(text@),
            )),
        },
{
    let (component, linker) = (&prepared.component.component, &prepared.linker.linker);
    match Command::instantiate(&mut guest.store, component, linker) {
        Ok(command) => Ok(GuestCommand { command, number: guest.number }),
        Err(error) => Err(GuestReturn::NotStarted(error.to_string())),
    }
}

/// `call_run` of the interface `wasi:cli/run` that a command exports. The
/// command is of the guest, which is said to be answered for by what comes back:
/// whether it succeeded, or the text of the error with the code of the
/// `wasmtime_wasi::I32Exit` among the causes of `anyhow::Error::chain`, if there
/// is one. Which of these comes back is not said.
#[verifier::external_body]
fn call_command(command: &GuestCommand, guest: &mut Guest) -> (returned: GuestReturn)
    requires
        command.store_number() == old(guest).store_number(),
        !old(guest).home().made_with().async_support,
    ensures
        final(guest).run() == old(guest).run(),
        final(guest).returned() == Some(returned),
        !(returned is NotStarted),
{
    match command.command.wasi_cli_run().call_run(&mut guest.store) {
        Ok(Ok(())) => GuestReturn::Returned(true),
        Ok(Err(())) => GuestReturn::Returned(false),
        Err(error) => GuestReturn::Failed {
            text: error.to_string(),
            exit_code: error.chain().find_map(|cause| {
                cause.downcast_ref().map(|exit: &I32Exit| exit.0)
            }),
        },
    }
}

/// What is left of a guest that was called: what the host held of it, and what
/// it wrote.
pub struct SpentGuest {
    pub state: HostState,
    pub stdout: Vec<u8>,
    pub stderr: Vec<u8>,
}

/// `wasmtime::Store::into_data`, and `MemoryOutputPipe::contents` of the two
/// outputs. The end of the guest is one that it may come to. The store changes
/// the state by the limiter and by the control alone, so a guest without a limit
/// on its memory did not exceed it, and one without a timeout did not exceed
/// that.
#[verifier::external_body]
fn leave(guest: Guest) -> (spent: SpentGuest)
    requires
        guest.returned() is Some,
    ensures
        guest_may_end(
            guest.run(),
            guest.returned()->0,
            spent.state.watcher().raised(),
            spent.state.limiter().memory_exceeded,
            spent.stdout@,
            spent.stderr@,
        ),
        spent.state.limiter().memory_exceeded ==> guest.run().memory_limit is Some,
        spent.state.watcher().raised() == ControlSignal::TimedOut ==> guest.run().timeout is Some,
{
    let state = guest.store.into_data();
    let stdout = state.context.stdout.contents().to_vec();
    let stderr = state.context.stderr.contents().to_vec();
    SpentGuest { state, stdout, stderr }
}

/// What a guest did, by what the engine says of it: an error with an exit code
/// is an exit, and any other is a trap.
pub open spec fn outcome_of(returned: GuestReturn) -> GuestOutcome {
    match returned {
        GuestReturn::NotStarted(text) => GuestOutcome::NotStarted(text),
        GuestReturn::Returned(succeeded) => if succeeded {
            GuestOutcome::Returned
        } else {
            GuestOutcome::ReturnedFailure
        },
        GuestReturn::Failed { text, exit_code } => match exit_code {
            Some(code) => GuestOutcome::Exited { code, message: text },
            None => GuestOutcome::Trapped(text),
        },
    }
}

/// What a guest did, by what the engine says of it.
pub fn read_return(returned: GuestReturn) -> (outcome: GuestOutcome)
    ensures
        outcome == outcome_of(returned),
{
    match returned {
        GuestReturn::NotStarted(text) => GuestOutcome::NotStarted(text),
        GuestReturn::Returned(succeeded) => if succeeded {
            GuestOutcome::Returned
        } else {
            GuestOutcome::ReturnedFailure
        },
        GuestReturn::Failed { text, exit_code } => match exit_code {
            Some(code) => GuestOutcome::Exited { code, message: text },
            None => GuestOutcome::Trapped(text),
        },
    }
}

/// Whether this is an end that a guest may come to that was given a function to
/// call. Where there was nothing to call, the guest may have been left before.
pub open spec fn module_ended(
    wanted: GuestRun,
    returned: GuestReturn,
    signal: ControlSignal,
    memory_exceeded: bool,
    stdout: Seq<u8>,
    stderr: Seq<u8>,
) -> bool {
    ||| guest_may_end(wanted, returned, signal, memory_exceeded, stdout, stderr)
    ||| returned is NotStarted && guest_may_end(
        GuestRun { entrypoint: None, ..wanted },
        returned,
        signal,
        memory_exceeded,
        stdout,
        stderr,
    )
}

/// Runs a function of a module in a guest of its own.
pub(crate) fn run_module(prepared: &PreparedModule, state: HostState, entrypoint: &str) -> (ran: (
    GuestReturn,
    SpentGuest,
))
    requires
        state.fresh(),
    ensures
        module_ended(
            GuestRun {
                entrypoint: Some(entrypoint@),
                ticks: Some(1),
                ..state.run_of(prepared.code())
            },
            ran.0,
            ran.1.state.watcher().raised(),
            ran.1.state.limiter().memory_exceeded,
            ran.1.stdout@,
            ran.1.stderr@,
        ),
        ran.0 != GuestReturn::Returned(false),
        ran.1.state.limiter().memory_exceeded ==> state.limiter().memory_limit is Some,
        ran.1.state.watcher().raised() == ControlSignal::TimedOut ==> state.watcher().limit()
            is Some,
{
    proof {
        use_type_invariant(prepared);
    }
    let mut guest = new_guest(&prepared.engine, state, Some(1));
    let returned = match instantiate_module(prepared, &mut guest) {
        Err(returned) => returned,
        Ok(instance) => call_function(&instance, &mut guest, entrypoint),
    };
    (returned, leave(guest))
}

/// Runs a command component in a guest of its own.
pub(crate) fn run_component(prepared: &PreparedComponent, state: HostState) -> (ran: (
    GuestReturn,
    SpentGuest,
))
    requires
        state.fresh(),
    ensures
        guest_may_end(
            GuestRun { ticks: Some(1), ..state.run_of(prepared.code()) },
            ran.0,
            ran.1.state.watcher().raised(),
            ran.1.state.limiter().memory_exceeded,
            ran.1.stdout@,
            ran.1.stderr@,
        ),
        ran.1.state.limiter().memory_exceeded ==> state.limiter().memory_limit is Some,
        ran.1.state.watcher().raised() == ControlSignal::TimedOut ==> state.watcher().limit()
            is Some,
{
    proof {
        use_type_invariant(prepared);
    }
    let mut guest = new_guest(&prepared.engine, state, Some(1));
    let returned = match instantiate_component(prepared, &mut guest) {
        Err(returned) => returned,
        Ok(command) => call_command(&command, &mut guest),
    };
    (returned, leave(guest))
}

/// Makes an instance of a module in a guest of its own, and calls nothing.
pub(crate) fn try_module(prepared: &PreparedModule, state: HostState) -> (tried: Result<
    (),
    GuestReturn,
>)
    requires
        state.fresh(),
    ensures
        match tried {
            Ok(()) => module_may_start(state.run_of(prepared.code()), None),
            Err(returned) => returned matches GuestReturn::NotStarted(text) && module_may_start(
                state.run_of(prepared.code()),
                Some(text@),
            ),
        },
{
    proof {
        use_type_invariant(prepared);
    }
    let mut guest = new_guest(&prepared.engine, state, None);
    match instantiate_module(prepared, &mut guest) {
        Ok(_) => Ok(()),
        Err(returned) => Err(returned),
    }
}

/// Makes an instance of a command component in a guest of its own, and calls
/// nothing.
pub(crate) fn try_component(prepared: &PreparedComponent, state: HostState) -> (tried: Result<
    (),
    GuestReturn,
>)
    requires
        state.fresh(),
    ensures
        match tried {
            Ok(()) => component_may_start(state.run_of(prepared.code()), None),
            Err(returned) => returned matches GuestReturn::NotStarted(text) && component_may_start(
                state.run_of(prepared.code()),
                Some(text@),
            ),
        },
{
    proof {
        use_type_invariant(prepared);
    }
    let mut guest = new_guest(&prepared.engine, state, None);
    match instantiate_component(prepared, &mut guest) {
        Ok(_) => Ok(()),
        Err(returned) => Err(returned),
    }
}

/// What the engine says of a guest is kept: an exit code is an exit with that
/// code, an error without one is a trap, a guest that came back succeeded or not
/// as it says, and what the engine says for people is what is told.
pub proof fn law_returns_are_read_as_they_are(returned: GuestReturn, outcome: GuestOutcome)
    requires
        call_ensures(read_return, (returned,), outcome),
    ensures
        outcome is NotStarted <==> returned is NotStarted,
        outcome is Returned <==> returned == GuestReturn::Returned(true),
        outcome is ReturnedFailure <==> returned == GuestReturn::Returned(false),
        returned matches GuestReturn::NotStarted(text) ==> outcome == GuestOutcome::NotStarted(text),
        returned matches GuestReturn::Failed { text, exit_code: Some(code) } ==> outcome == (
        GuestOutcome::Exited { code, message: text }),
        returned matches GuestReturn::Failed { text, exit_code: None } ==> outcome
            == GuestOutcome::Trapped(text),
{
}

} // verus!

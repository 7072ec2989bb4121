use pit_box::artifact::{FoundFile, WasmArtifact};
use pit_box::cache::HostPlatform;
use pit_box::clock::Span;
use pit_box::lanes::{InTurn, LaneHost, LaneWorker};
use pit_box::node::{
    admit_batch, classify, execute_one, summarize, validate_runtime_spec, PitNode, RuntimeSpec,
};
use pit_box::outcome::{
    conclude, CancellationToken, ControlSignal, ExecutionControl, ExecutionStatus, GuestOutcome,
    RuntimeLimiter,
};
use pit_box::request::{validate_env_entry, ExecutionRequest};
use pit_box::runtime::{
    configure_engine, HttpHalf, PitRuntime, PitRuntimeConfig, PreparedArtifact,
    RuntimeAllocationMode,
};
use pit_box::scheduler::{ExecutionId, LaneId, LaneState, PitScheduler};
use std::time::SystemTime;

fn platform() -> HostPlatform {
    HostPlatform {
        architecture: "x86_64".to_owned(),
        os: "linux".to_owned(),
        family: "unix".to_owned(),
    }
}

fn wasm(source: &str) -> WasmArtifact {
    WasmArtifact::from_bytes(wat::parse_str(source).expect("test WAT must compile"))
}

fn prepared(source: &str) -> (PreparedArtifact, ExecutionRequest) {
    let artifact = wasm(source);
    let runtime = PitRuntime::new(platform()).expect("test engine should initialize");
    let prepared = runtime
        .prepare(artifact.clone(), FoundFile::Missing)
        .expect("test artifact should compile");
    (prepared, ExecutionRequest::new(artifact))
}

fn node(source: &str, lanes: usize) -> (PitNode, ExecutionRequest) {
    let artifact = wasm(source);
    let node =
        PitNode::from_artifact(artifact.clone(), FoundFile::Missing, platform(), Some(lanes))
            .expect("node should prepare");
    (node, ExecutionRequest::new(artifact))
}

fn command(code: u32) -> String {
    format!(
        r#"(component
            (core module $m (func (export "run") (result i32) (i32.const {code})))
            (core instance $i (instantiate $m))
            (func $run (result (result)) (canon lift (core func $i "run")))
            (instance $inst (export "run" (func $run)))
            (export "wasi:cli/run@0.2.6" (instance $inst)))"#
    )
}

#[test]
fn cancellation_returns_status_and_releases_lane() {
    let bytes = wat::parse_str(r#"(module (func (export "_start") (loop br 0)))"#)
        .expect("test WAT must compile");
    let artifact = WasmArtifact::from_bytes(bytes);
    let mut node =
        PitNode::from_artifact(artifact.clone(), FoundFile::Missing, platform(), Some(2))
            .expect("node should prepare");
    let token = CancellationToken::new();
    let clock = node.epoch_clock();
    let host_token = token.clone();
    let request = ExecutionRequest::new(artifact);
    let host = tokio::runtime::Builder::new_multi_thread()
        .worker_threads(2)
        .enable_time()
        .build()
        .expect("test host should start");
    host.spawn(async move {
        loop {
            tokio::time::sleep(std::time::Duration::from_millis(1)).await;
            clock.advance();
        }
    });
    host.spawn(async move {
        tokio::time::sleep(std::time::Duration::from_millis(25)).await;
        host_token.cancel();
    });

    let report = match node.execute_many_with_cancellation(request, 1, token, &InTurn) {
        Ok(report) => report,
        Err(error) => panic!("cancellation execution failed: {}", error.describe()),
    };
    host.shutdown_background();
    assert_eq!(report.executions[0].status, ExecutionStatus::Cancelled);
    assert_eq!(report.snapshot.failed, 1);
    assert_eq!(report.snapshot.running, 0);
    assert_eq!(report.snapshot.queued, 0);
    assert!(report.snapshot.lanes.iter().all(|state| *state == LaneState::Free));
}

#[test]
fn a_batch_is_counted() {
    let (mut node, request) = node(r#"(module (func (export "_start")))"#, 2);
    assert_eq!(node.execution_lanes(), 2);
    let report = node.execute_many(request, 5, &InTurn).expect("jobs should complete");
    assert_eq!(report.requested, 5);
    assert_eq!(report.completed, 5);
    assert_eq!(report.failed + report.timed_out + report.cancelled, 0);
    assert_eq!(report.snapshot.completed, 5);
    assert_eq!(report.artifact_path, "<in-memory-artifact>");
    assert_eq!(report.execution_lanes, 2);
    assert_eq!(report.events.len(), 15);
    let ids: Vec<u64> = report.executions.iter().map(|e| e.execution_id.0).collect();
    assert_eq!(ids, vec![0, 1, 2, 3, 4]);
    assert!(report.executions.iter().all(|e| e.exit_code == Some(0)));
    let report = node.run(1, &InTurn).expect("the default request runs");
    assert_eq!(report.executions[0].execution_id.0, 5);
    assert_eq!(
        node.run(0, &InTurn).expect_err("nothing to run").message,
        "execution count must be greater than zero"
    );
}

/// A thread for each lane.
struct Threads;

impl LaneHost for Threads {
    fn run_lanes<T, F, C>(&self, workers: Vec<LaneWorker<T, F, C>>)
    where
        T: Send + Sync + 'static,
        F: Fn(ExecutionId, LaneId) -> Result<T, String> + Send + Sync + 'static,
        C: Fn(&T) -> Option<String> + Send + Sync + 'static,
    {
        let host = tokio::runtime::Builder::new_multi_thread()
            .worker_threads(1)
            .build()
            .expect("test host should start");
        let served: Vec<_> = workers
            .into_iter()
            .map(|worker| host.spawn_blocking(move || worker.serve()))
            .collect();
        for lane in served {
            host.block_on(lane).expect("lanes should not panic");
        }
    }
}

#[test]
fn one_token_cancels_every_lane() {
    let (mut node, request) = node(r#"(module (func (export "_start") (loop br 0)))"#, 3);
    let token = CancellationToken::new();
    let host_token = token.clone();
    let clock = node.epoch_clock();
    let host = tokio::runtime::Builder::new_multi_thread()
        .worker_threads(2)
        .enable_time()
        .build()
        .expect("test host should start");
    host.spawn(async move {
        loop {
            tokio::time::sleep(std::time::Duration::from_millis(1)).await;
            clock.advance();
        }
    });
    host.spawn(async move {
        tokio::time::sleep(std::time::Duration::from_millis(50)).await;
        host_token.cancel();
    });
    let report = node
        .execute_many_with_cancellation(request, 5, token, &Threads)
        .expect("a cancelled batch is a report");
    host.shutdown_background();
    assert_eq!(report.cancelled, 5);
    assert!(report.executions.iter().all(|e| e.status == ExecutionStatus::Cancelled));
    assert_eq!(report.peak_active, 3);
    assert_eq!(report.events.len(), 15);
}

#[test]
fn traps_and_missing_functions_are_failures() {
    let (mut trapping, request) = node(r#"(module (func (export "_start") unreachable))"#, 1);
    let execution = trapping.execute(request).expect("a trap is a result");
    assert_eq!(execution.status, ExecutionStatus::GuestTrap);
    assert!(execution.error.is_some());
    let (mut other, request) = node(r#"(module (func (export "other")))"#, 1);
    let missing = other.execute(request).expect("a missing function is a result");
    assert_eq!(missing.status, ExecutionStatus::RuntimeError);
    assert_eq!(
        missing.error.as_deref(),
        Some("failed to find function export `_start`")
    );
    let request =
        ExecutionRequest::new(other.artifact().clone()).with_entrypoint("other".to_owned());
    let found = other.execute(request).expect("another function can be called");
    assert_eq!(found.status, ExecutionStatus::Completed);
    assert_eq!(found.execution_id.0, 1);
}

#[test]
fn guests_leave_with_their_code() {
    let leave = |code: u32| {
        let artifact = wasm(&format!(
            r#"(module
                (import "wasi_snapshot_preview1" "proc_exit" (func $exit (param i32)))
                (memory (export "memory") 1)
                (func (export "_start") (call $exit (i32.const {code}))))"#
        ));
        let config = PitRuntimeConfig::default();
        let runtime = PitRuntime::with_reservation(config, platform(), Some(1024 * 1024))
            .expect("test engine should initialize");
        let prepared = runtime
            .prepare(artifact.clone(), FoundFile::Missing)
            .expect("test module should compile");
        let request = ExecutionRequest::new(artifact);
        prepared.execute(&request, CancellationToken::new()).expect("an exit is a result")
    };
    let zero = leave(0);
    assert_eq!(zero.status, ExecutionStatus::Completed);
    assert_eq!(zero.exit_code, Some(0));
    assert_eq!(zero.error, None);
    let seven = leave(7);
    assert_eq!(seven.status, ExecutionStatus::GuestExitNonZero);
    assert_eq!(seven.exit_code, Some(7));
    assert!(seven.error.is_some());
}

#[test]
fn commands_are_components() {
    let (prepared, request) = prepared(&command(0));
    assert_eq!(prepared.default_entrypoint(), "wasi:cli/command");
    assert_eq!(prepared.http(), HttpHalf::EngineOnly);
    assert!(prepared.http_component().is_some());
    let failure =
        prepared.execute(&request, CancellationToken::new()).expect_err("wrong entrypoint");
    assert_eq!(
        failure.message,
        "unsupported WASI Preview 2 entrypoint '_start'; expected wasi:cli/command"
    );
    let request = request.with_entrypoint("wasi:cli/command".to_owned());
    let result = prepared.execute(&request, CancellationToken::new()).expect("commands run");
    assert_eq!(result.status, ExecutionStatus::Completed);
    assert_eq!(result.exit_code, Some(0));
    assert!(prepared.measure_instantiation(&request).is_ok());
    let resolved = prepared.resolved();
    assert_eq!(resolved.http(), HttpHalf::Resolved);
}

#[test]
fn a_command_may_say_that_it_failed() {
    let (prepared, request) = prepared(&command(1));
    let request = request.with_entrypoint("wasi:cli/command".to_owned());
    let result = prepared.execute(&request, CancellationToken::new()).expect("commands run");
    assert_eq!(result.status, ExecutionStatus::GuestExitNonZero);
    assert_eq!(result.exit_code, Some(1));
    assert_eq!(result.error.as_deref(), Some("guest exited with a non-zero status"));
}

#[test]
fn instances_can_be_measured() {
    let (prepared, request) = prepared(r#"(module (func (export "_start")))"#);
    assert_eq!(prepared.default_entrypoint(), "_start");
    assert!(prepared.measure_instantiation(&request).is_ok());
    let copy = prepared.clone();
    let result = copy.execute(&request, CancellationToken::new()).expect("a copy runs");
    assert_eq!(result.status, ExecutionStatus::Completed);
    let other = ExecutionRequest::new(WasmArtifact::from_path("x"));
    assert_eq!(
        prepared.measure_instantiation(&other).expect_err("another artifact").message,
        "execution request artifact does not match prepared artifact"
    );
    let bad = request.with_entrypoint(String::new());
    assert_eq!(
        prepared.measure_instantiation(&bad).expect_err("no entrypoint").message,
        "entrypoint must be a non-empty string without NUL bytes"
    );
}

#[test]
fn instances_with_unknown_imports_are_not_measured() {
    let (prepared, request) = prepared(
        r#"(module (import "nowhere" "missing" (func)) (func (export "_start")))"#,
    );
    let failure = prepared.measure_instantiation(&request).expect_err("cannot be linked");
    assert!(failure.message.contains("nowhere"), "{}", failure.message);
    assert!(failure.cause.is_none());
    let result = prepared.execute(&request, CancellationToken::new()).expect("this is a result");
    assert_eq!(result.status, ExecutionStatus::RuntimeError);
    assert_eq!(result.error, Some(failure.message));
}

#[test]
fn artifacts_for_http_alone_refuse_what_they_cannot_admit() {
    let prepared = PreparedArtifact::for_http(WasmArtifact::from_path("x"), true);
    let other = ExecutionRequest::new(WasmArtifact::from_path("y"));
    assert_eq!(
        prepared.execute(&other, CancellationToken::new()).expect_err("another artifact").message,
        "execution request artifact 'path:y' does not match prepared artifact 'path:x'"
    );
    assert_eq!(
        prepared.measure_instantiation(&other).expect_err("another artifact").message,
        "execution request artifact does not match prepared artifact"
    );
    let bad = ExecutionRequest::new(WasmArtifact::from_path("x")).with_entrypoint(String::new());
    assert_eq!(
        prepared.execute(&bad, CancellationToken::new()).expect_err("no entrypoint").message,
        "entrypoint must be a non-empty string without NUL bytes"
    );
}

#[test]
fn an_execution_without_time_does_not_go_on() {
    let mut control = ExecutionControl::new(CancellationToken::new(), Some(Span::zero()));
    assert_eq!(control.check(), None);
    assert_eq!(control.signal(), ControlSignal::TimedOut);
}

#[test]
fn requests_for_other_artifacts_are_refused() {
    let (prepared, request) = prepared(r#"(module (func (export "_start")))"#);
    let other = ExecutionRequest::new(WasmArtifact::from_path("x"));
    let expected = format!(
        "execution request artifact 'path:x' does not match prepared artifact '{}'",
        prepared.artifact().id().as_str()
    );
    let token = CancellationToken::new();
    assert_eq!(prepared.execute(&other, token.clone()).expect_err("other").message, expected);
    assert_eq!(execute_one(&prepared, &other, token).expect_err("other"), expected);
    assert_eq!(admit_batch(&prepared, &other, 1).expect_err("other").message, expected);
    assert!(admit_batch(&prepared, &request, 1).is_ok());
}

#[test]
fn artifacts_are_read_or_refused() {
    let runtime = PitRuntime::new(platform()).expect("test engine should initialize");
    let at = || WasmArtifact::from_path("/m.wasm");
    let refused =
        |found| runtime.prepare(at(), found).err().expect("cannot be prepared");
    assert_eq!(refused(FoundFile::NotAFile).message, "WASM path is not a file: /m.wasm");
    let failure = refused(FoundFile::Unreadable("denied".to_owned()));
    assert_eq!(failure.describe(), "failed to read WASM artifact /m.wasm: denied");
    assert!(refused(FoundFile::Contents(b"text".to_vec())).cause.is_none());
    let broken = wat::parse_str("(module)").expect("test WAT must compile");
    let broken = [broken, vec![0xff]].concat();
    assert_eq!(
        refused(FoundFile::Contents(broken)).message,
        "WASM module preparation failed"
    );
    let component = wat::parse_str("(component)").expect("test WAT must compile");
    let broken = [component, vec![0xff]].concat();
    assert_eq!(
        refused(FoundFile::Contents(broken)).message,
        "WASM component preparation failed"
    );
    let module = wat::parse_str("(module)").expect("test WAT must compile");
    assert!(runtime.prepare_http(at(), FoundFile::Contents(module)).is_ok());
    assert!(PitNode::from_file("/m.wasm", FoundFile::Missing, platform(), None)
        .err()
        .expect("no file")
        .message
        .contains("WASM file does not exist: /m.wasm"));
}

#[test]
fn pools_have_limits() {
    let config = |slots| PitRuntimeConfig {
        allocation: RuntimeAllocationMode::Pooling { slots },
        ..PitRuntimeConfig::default()
    };
    let made = configure_engine(&config(0), true, None).expect("one slot at least");
    let pool = made.pooling.expect("a pool");
    assert_eq!(pool.component_instances, 1);
    assert_eq!(pool.core_instances, 8);
    assert!(made.async_support && made.epoch_interruption);
    let made = configure_engine(&config(100), false, Some(5)).expect("a pool");
    let pool = made.pooling.expect("a pool");
    assert_eq!((pool.stacks, pool.memories, pool.tables), (100, 800, 800));
    assert_eq!(pool.unused_warm_slots, 100);
    assert_eq!(made.memory_reservation, Some(5));
    let failure = configure_engine(&config(u32::MAX as usize), false, None).expect_err("large");
    assert_eq!(failure.message, "pooling resource slot count is too large");
    let failure = PitRuntime::with_config(config(u32::MAX as usize + 1), platform())
        .err()
        .expect("too large");
    assert_eq!(failure.message, "pooling slot count exceeds u32");
    let plain = configure_engine(&PitRuntimeConfig::default(), false, None).expect("no pool");
    assert_eq!(plain.pooling, None);
}

#[test]
fn runtime_specs_are_checked() {
    let check = |abi: &str, entrypoint: &str| {
        validate_runtime_spec(&RuntimeSpec {
            abi: abi.to_owned(),
            entrypoint: entrypoint.to_owned(),
        })
        .map_err(|failure| failure.message)
    };
    assert_eq!(check("wasi-preview1", "_start"), Ok(()));
    assert_eq!(check("wasi-preview2", "wasi:cli/command"), Ok(()));
    assert_eq!(
        check("wasi-preview1", "main"),
        Err("unsupported WASI Preview 1 entrypoint 'main'; expected _start".to_owned())
    );
    assert_eq!(
        check("wasi-preview2", "_start"),
        Err("unsupported WASI Preview 2 entrypoint '_start'; expected wasi:cli/command".to_owned())
    );
    assert_eq!(
        check("emscripten", "_start"),
        Err("unsupported runtime ABI 'emscripten'; \
             this PitBox supports wasi-preview1 and wasi-preview2"
            .to_owned())
    );
}

#[test]
fn requests_say_what_is_wrong() {
    let request = || ExecutionRequest::new(WasmArtifact::from_path("x"));
    let refused = |request: ExecutionRequest| request.validate().expect_err("refused").message;
    assert_eq!(
        refused(request().with_entrypoint("a\0".to_owned())),
        "entrypoint must be a non-empty string without NUL bytes"
    );
    let args = vec!["fine".to_owned(), "bad\0".to_owned(), "\0".to_owned()];
    assert_eq!(refused(request().with_args(args)), "argument 1 contains a NUL byte");
    let entry = |key: &str, value: &str| {
        validate_env_entry(key, value).map_err(|failure| failure.message)
    };
    assert_eq!(entry("A", "b=c"), Ok(()));
    assert_eq!(entry("", ""), Err("environment variable name must not be empty".to_owned()));
    assert_eq!(
        entry("A=B", "\0"),
        Err("environment variable name must not contain '=': A=B".to_owned())
    );
    assert_eq!(
        entry("A\0", ""),
        Err("environment variable entries must not contain NUL bytes".to_owned())
    );
}

#[test]
fn verdicts_follow_what_was_seen() {
    let see = |outcome, signal, memory| {
        let result = conclude(
            outcome,
            signal,
            memory,
            b"o".to_vec(),
            b"e".to_vec(),
            SystemTime::now(),
            Span::zero(),
        );
        assert_eq!((result.stdout.as_slice(), result.stderr.as_slice()), (&b"o"[..], &b"e"[..]));
        (result.status, result.exit_code, result.error)
    };
    let unstarted = || GuestOutcome::NotStarted("why".to_owned());
    let why = || Some("why".to_owned());
    assert_eq!(
        see(unstarted(), ControlSignal::Clear, false),
        (ExecutionStatus::RuntimeError, None, why())
    );
    assert_eq!(
        see(unstarted(), ControlSignal::Clear, true),
        (ExecutionStatus::MemoryLimitExceeded, None, why())
    );
    assert_eq!(
        see(unstarted(), ControlSignal::TimedOut, true),
        (ExecutionStatus::TimedOut, None, why())
    );
    assert_eq!(
        see(unstarted(), ControlSignal::Cancelled, false),
        (ExecutionStatus::Cancelled, None, why())
    );
    assert_eq!(
        see(GuestOutcome::Returned, ControlSignal::Cancelled, true),
        (ExecutionStatus::Cancelled, None, Some("execution was cancelled".to_owned()))
    );
    assert_eq!(
        see(GuestOutcome::Returned, ControlSignal::Clear, true),
        (
            ExecutionStatus::MemoryLimitExceeded,
            None,
            Some("execution exceeded its memory limit".to_owned())
        )
    );
    assert_eq!(
        see(GuestOutcome::Trapped("t".to_owned()), ControlSignal::Clear, false),
        (ExecutionStatus::GuestTrap, None, Some("t".to_owned()))
    );
    let exit = |code| GuestOutcome::Exited { code, message: "left".to_owned() };
    assert_eq!(
        see(exit(0), ControlSignal::Clear, false),
        (ExecutionStatus::Completed, Some(0), None)
    );
    assert_eq!(
        see(exit(-3), ControlSignal::Clear, false),
        (ExecutionStatus::GuestExitNonZero, Some(-3), Some("left".to_owned()))
    );
}

#[test]
fn interruptions_are_decided_by_token_and_time() {
    let limit = Some(Span::from_millis(5));
    let mut control = ExecutionControl::new(CancellationToken::new(), limit);
    assert_eq!(control.observe(false, Span::from_millis(4)), Some(1));
    assert_eq!(control.signal(), ControlSignal::Clear);
    assert_eq!(control.observe(false, Span::from_millis(5)), None);
    assert_eq!(control.signal(), ControlSignal::TimedOut);
    assert_eq!(control.observe(true, Span::from_millis(9)), None);
    assert_eq!(control.signal(), ControlSignal::Cancelled);
    let mut control = ExecutionControl::new(CancellationToken::new(), None);
    assert_eq!(control.observe(false, Span::from_millis(u64::MAX)), Some(1));
    let token = CancellationToken::default();
    let mut control = ExecutionControl::new(token.clone(), None);
    assert_eq!(control.check(), Some(1));
    token.cancel();
    assert_eq!(control.check(), None);
    assert_eq!(control.signal(), ControlSignal::Cancelled);
}

#[test]
fn memory_is_limited() {
    let mut limiter = RuntimeLimiter::new(Some(1024));
    assert_eq!(limiter.admit_memory(1024).ok(), Some(true));
    assert!(!limiter.memory_exceeded);
    assert_eq!(
        limiter.admit_memory(1025).expect_err("too much").message,
        "linear memory growth to 1025 bytes exceeds configured limit of 1024 bytes"
    );
    assert!(limiter.memory_exceeded);
    assert_eq!(RuntimeLimiter::new(None).admit_memory(usize::MAX).ok(), Some(true));
}

#[test]
fn a_report_counts_every_status_once() {
    let mut scheduler = PitScheduler::new(2).expect("two lanes are valid");
    let run = scheduler
        .run_many_classified(
            6,
            |execution_id, _| {
                let (outcome, signal, memory) = match execution_id.0 {
                    0 => (GuestOutcome::Returned, ControlSignal::Clear, false),
                    1 => (GuestOutcome::ReturnedFailure, ControlSignal::Clear, false),
                    2 => (GuestOutcome::Returned, ControlSignal::TimedOut, false),
                    3 => (GuestOutcome::Returned, ControlSignal::Cancelled, false),
                    4 => (GuestOutcome::Returned, ControlSignal::Clear, true),
                    _ => return Err("refused".to_owned()),
                };
                let now = SystemTime::now();
                Ok(conclude(outcome, signal, memory, vec![], vec![], now, Span::zero()))
            },
            classify,
            &InTurn,
        )
        .expect("jobs should complete");
    let artifact = WasmArtifact::from_path("/a.wasm");
    let report = summarize(&artifact, run, 2, 6, Span::from_millis(1));
    assert_eq!(report.artifact_path, "/a.wasm");
    assert_eq!(report.completed, 1);
    assert_eq!(report.failed, 3);
    assert_eq!(report.timed_out, 1);
    assert_eq!(report.cancelled, 1);
    assert_eq!(report.memory_limit_exceeded, 1);
    assert_eq!(report.snapshot.completed, 1);
    assert_eq!(report.snapshot.failed, 5);
    assert_eq!(report.executions[5].status, ExecutionStatus::RuntimeError);
    assert_eq!(report.executions[5].error.as_deref(), Some("refused"));
    assert_eq!(report.executions[1].lane_id, LaneId(0));
    assert!(report.snapshot.lanes.iter().all(|lane| *lane == LaneState::Free));
    assert_eq!(ExecutionStatus::MemoryLimitExceeded.name(), "MemoryLimitExceeded");
}

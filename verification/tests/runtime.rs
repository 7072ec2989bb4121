use pit_box::artifact::{ArtifactSource, FoundFile, WasmArtifact};
use pit_box::cache::{CompiledCacheSource, HostPlatform};
use pit_box::clock::Span;
use pit_box::outcome::{CancellationToken, ExecutionStatus};
use pit_box::preparation::{PreparationReport, ReadinessState};
use pit_box::request::{ExecutionLimits, ExecutionRequest};
use pit_box::runtime::{
    CompiledCacheRestoreMode, EpochClock, PitRuntime, PitRuntimeConfig, PreparedArtifact,
    RuntimeAllocationMode,
};
use pit_box::signature::{canonical_path_and_query, parse_amz_timestamp};

fn platform() -> HostPlatform {
    HostPlatform {
        architecture: "x86_64".to_owned(),
        os: "linux".to_owned(),
        family: "unix".to_owned(),
    }
}

/// A runtime whose memories reserve little address space.
fn small_runtime() -> PitRuntime {
    PitRuntime::with_reservation(PitRuntimeConfig::default(), platform(), Some(1024 * 1024))
        .expect("test engine should initialize")
}

fn prepared_with_clock(source: &str) -> (PreparedArtifact, ExecutionRequest, EpochClock) {
    let bytes = wat::parse_str(source).expect("test WAT must compile");
    let artifact = WasmArtifact::from_bytes(bytes);
    let runtime = small_runtime();
    let prepared = runtime
        .prepare(artifact.clone(), FoundFile::Missing)
        .expect("test module should compile");
    (prepared, ExecutionRequest::new(artifact), runtime.epoch_clock())
}

fn prepared_request(source: &str) -> (PreparedArtifact, ExecutionRequest) {
    let (prepared, request, _) = prepared_with_clock(source);
    (prepared, request)
}

#[test]
fn an_uncached_preparation_is_cold_and_untimed() {
    let runtime = PitRuntime::new(platform()).expect("test engine should initialize");
    let empty = vec![0x00_u8, 0x61, 0x73, 0x6d, 0x0d, 0x00, 0x01, 0x00];
    let artifact = WasmArtifact::from_bytes(empty);
    let (prepared, report) = runtime
        .prepare_with_world(artifact.clone(), FoundFile::Missing)
        .expect("the empty component should compile");
    assert_eq!(prepared.default_entrypoint(), "wasi:cli/command");
    assert!(prepared.artifact().id() == artifact.id());
    assert_eq!(report.readiness, ReadinessState::Cold);
    assert_eq!(report.source, CompiledCacheSource::ColdCompiled);
    assert_eq!(report.compile_duration, Span::zero());
    assert_eq!(report, PreparationReport::default());
}

/// Runs something while the epoch moves on.
fn while_ticking<T>(clock: EpochClock, run: impl FnOnce() -> T) -> T {
    let runtime = tokio::runtime::Builder::new_multi_thread()
        .worker_threads(1)
        .enable_time()
        .build()
        .expect("test ticker should start");
    let ticker = runtime.spawn(async move {
        loop {
            tokio::time::sleep(std::time::Duration::from_millis(1)).await;
            clock.advance();
        }
    });
    let value = run();
    ticker.abort();
    runtime.shutdown_background();
    value
}

#[test]
fn path_artifact_and_request_defaults_are_valid() {
    let request = ExecutionRequest::new(WasmArtifact::from_path("hello.wasm"));
    assert!(request.args.is_empty());
    assert!(request.env.is_empty());
    assert!(request.limits.timeout.is_none());
    assert!(request.limits.memory_bytes.is_none());
    assert!(request.validate().is_ok());
}

#[test]
fn sigv4_timestamp_requires_valid_utc_datetime() {
    assert!(parse_amz_timestamp("20260908T120000Z").is_ok());
    assert!(parse_amz_timestamp("20260230T120000Z").is_err());
    assert!(parse_amz_timestamp("20260908T120000+00").is_err());
}

#[test]
fn sigv4_path_and_query_are_sorted_and_encoded() {
    let (path, query) = canonical_path_and_query("/a space/utf8?q=z value&b=2&a=1")
        .expect("canonical path should be valid");
    assert_eq!(path, "/a%20space/utf8");
    assert_eq!(query, "a=1&b=2&q=z%20value");
}

#[test]
fn missing_path_artifact_fails_cleanly() {
    let runtime = PitRuntime::new(platform()).expect("test engine should initialize");
    let error = match runtime.prepare(
        WasmArtifact::from_path("/pitfast/path-that-does-not-exist.wasm"),
        FoundFile::Missing,
    ) {
        Ok(_) => panic!("missing artifact should fail"),
        Err(error) => error,
    };
    assert!(error.message.contains("WASM file does not exist"));
}

#[test]
fn bytes_artifacts_have_content_identity() {
    let first = WasmArtifact::from_bytes(vec![1_u8, 2, 3]);
    let second = WasmArtifact::from_bytes(vec![1_u8, 2, 3]);
    let third = WasmArtifact::from_bytes(vec![1_u8, 2, 4]);
    assert_eq!(first.id(), second.id());
    assert_ne!(first.id(), third.id());
}

#[test]
fn verified_path_artifact_reuses_supplied_digest_identity() {
    let artifact = WasmArtifact::from_path_with_digest(
        "/tmp/verified-artifact.wasm",
        "sha256:0123456789abcdef".to_owned(),
    );
    assert_eq!(artifact.id().as_str(), "sha256:0123456789abcdef");
    assert!(matches!(artifact.source(), ArtifactSource::Path(_)));
}

#[test]
fn file_backed_restore_is_the_runtime_default() {
    assert_eq!(
        PitRuntimeConfig::default().compiled_cache_restore,
        CompiledCacheRestoreMode::FileBacked
    );
    assert_eq!(
        PitRuntimeConfig::default().allocation,
        RuntimeAllocationMode::OnDemand
    );
}

#[test]
fn request_rejects_invalid_guest_strings() {
    let request = ExecutionRequest::new(WasmArtifact::from_bytes(vec![]))
        .with_args(vec!["bad\0arg".to_owned()])
        .with_limits(ExecutionLimits {
            timeout: Some(Span::from_millis(1)),
            memory_bytes: Some(1024),
        });
    assert!(request.validate().is_err());
}

#[test]
fn request_rejects_malformed_environment_entries() {
    let artifact = WasmArtifact::from_bytes(vec![]);
    assert!(ExecutionRequest::new(artifact.clone())
        .with_env(vec![(String::new(), "value".to_owned())])
        .validate()
        .is_err());
    assert!(ExecutionRequest::new(artifact)
        .with_env(vec![("KEY".to_owned(), "bad\0value".to_owned())])
        .validate()
        .is_err());
}

#[test]
fn cancellation_token_is_shareable() {
    let token = CancellationToken::new();
    let clone = token.clone();
    assert!(!clone.is_cancelled());
    token.cancel();
    assert!(clone.is_cancelled());
}

#[test]
fn stdout_and_stderr_are_captured_separately() {
    let (prepared, request) = prepared_request(
        r#"
        (module
          (import "wasi_snapshot_preview1" "fd_write"
            (func $fd_write (param i32 i32 i32 i32) (result i32)))
          (memory (export "memory") 1)
          (data (i32.const 64) "out\n")
          (data (i32.const 68) "err\n")
          (func (export "_start")
            (i32.store (i32.const 0) (i32.const 64))
            (i32.store (i32.const 4) (i32.const 4))
            (i32.store (i32.const 8) (i32.const 68))
            (i32.store (i32.const 12) (i32.const 4))
            (call $fd_write (i32.const 1) (i32.const 0) (i32.const 1) (i32.const 16))
            drop
            (call $fd_write (i32.const 2) (i32.const 8) (i32.const 1) (i32.const 16))
            drop))
        "#,
    );
    let result = prepared
        .execute(&request, CancellationToken::new())
        .expect("test module should execute");
    assert_eq!(result.status, ExecutionStatus::Completed);
    assert_eq!(result.stdout, b"out\n");
    assert_eq!(result.stderr, b"err\n");
}

#[test]
fn wasi_arguments_preserve_order() {
    let (prepared, request) = prepared_request(
        r#"
        (module
          (import "wasi_snapshot_preview1" "args_sizes_get"
            (func $args_sizes_get (param i32 i32) (result i32)))
          (import "wasi_snapshot_preview1" "args_get"
            (func $args_get (param i32 i32) (result i32)))
          (import "wasi_snapshot_preview1" "fd_write"
            (func $fd_write (param i32 i32 i32 i32) (result i32)))
          (memory (export "memory") 1)
          (func (export "_start")
            (call $args_sizes_get (i32.const 100) (i32.const 104)) drop
            (call $args_get (i32.const 0) (i32.const 64)) drop
            (i32.store (i32.const 300) (i32.load (i32.const 4)))
            (i32.store (i32.const 304) (i32.const 5))
            (call $fd_write (i32.const 1) (i32.const 300) (i32.const 1) (i32.const 316))
            drop
            (i32.store (i32.const 308) (i32.load (i32.const 8)))
            (i32.store (i32.const 312) (i32.const 5))
            (call $fd_write (i32.const 1) (i32.const 308) (i32.const 1) (i32.const 316))
            drop))
        "#,
    );
    let request = request.with_args(vec!["hello".to_owned(), "world".to_owned()]);
    let result = prepared
        .execute(&request, CancellationToken::new())
        .expect("argument test should execute");
    assert_eq!(result.stdout, b"helloworld");
}

#[test]
fn wasi_environment_is_explicit_only() {
    let (prepared, request) = prepared_request(
        r#"
        (module
          (import "wasi_snapshot_preview1" "environ_sizes_get"
            (func $environ_sizes_get (param i32 i32) (result i32)))
          (import "wasi_snapshot_preview1" "environ_get"
            (func $environ_get (param i32 i32) (result i32)))
          (import "wasi_snapshot_preview1" "fd_write"
            (func $fd_write (param i32 i32 i32 i32) (result i32)))
          (memory (export "memory") 1)
          (data (i32.const 512) "empty")
          (data (i32.const 520) "nonempty")
          (func (export "_start")
            (call $environ_sizes_get (i32.const 100) (i32.const 104)) drop
            (call $environ_get (i32.const 0) (i32.const 128)) drop
            (if (i32.eqz (i32.load (i32.const 100)))
              (then
                (i32.store (i32.const 300) (i32.const 512))
                (i32.store (i32.const 304) (i32.const 5)))
              (else
                (i32.store (i32.const 300) (i32.const 520))
                (i32.store (i32.const 304) (i32.const 8)))
            )
            (call $fd_write (i32.const 1) (i32.const 300) (i32.const 1) (i32.const 308))
            drop))
        "#,
    );
    let result = prepared
        .execute(&request, CancellationToken::new())
        .expect("empty environment test should execute");
    assert_eq!(result.stdout, b"empty");

    let request = request.with_env(vec![("MODE".to_owned(), "production".to_owned())]);
    let result = prepared
        .execute(&request, CancellationToken::new())
        .expect("explicit environment test should execute");
    assert_eq!(result.stdout, b"nonempty");
}

#[test]
fn timeout_interrupts_cpu_loop() {
    let (prepared, request, clock) =
        prepared_with_clock(r#"(module (func (export "_start") (loop br 0)))"#);
    let request = request.with_limits(ExecutionLimits {
        timeout: Some(Span::from_millis(20)),
        memory_bytes: None,
    });
    let result = while_ticking(clock, || prepared.execute(&request, CancellationToken::new()))
        .expect("timeout should be a result");
    assert_eq!(result.status, ExecutionStatus::TimedOut);
    assert_eq!(result.exit_code, None);
    assert_eq!(result.error.as_deref(), Some("execution exceeded its timeout"));
}

#[test]
fn memory_growth_is_limited_per_store() {
    let (prepared, request) = prepared_request(
        r#"
        (module
          (memory (export "memory") 1)
          (func (export "_start")
            (drop (memory.grow (i32.const 200)))))
        "#,
    );
    let request = request.with_limits(ExecutionLimits {
        timeout: None,
        memory_bytes: Some(8 * 1024 * 1024),
    });
    let result = prepared
        .execute(&request, CancellationToken::new())
        .expect("memory violation should be a result");
    assert_eq!(result.status, ExecutionStatus::MemoryLimitExceeded);
}

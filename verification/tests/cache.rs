use pit_box::artifact::{detect_format, ArtifactFormat, FoundFile, WasmArtifact};
use pit_box::cache::{
    cache_entry_paths, cache_step, compile_entry, engine_fingerprint, eviction_plan, new_metadata,
    temporary_file_name, warm_digests, CacheKey, CacheLookup, CacheStep, CachedFile,
    CompileFingerprint, CompiledCacheConfig, CompiledCacheSource, DigestDirectory, HostPlatform,
    WarmEntry,
};
use pit_box::clock::Span;
use pit_box::digest::artifact_digest;
use pit_box::preparation::{AfterLoad, LoadOutcome, Phase, ReadinessState};
use pit_box::runtime::{
    CachedStart, CompiledCacheRestoreMode, HttpHalf, PitRuntime, PitRuntimeConfig,
    PreparedArtifact,
};
use std::time::Instant;

fn platform() -> HostPlatform {
    HostPlatform {
        architecture: "x86_64".to_owned(),
        os: "linux".to_owned(),
        family: "unix".to_owned(),
    }
}

fn key(digest: &str) -> CacheKey {
    CacheKey {
        digest: digest.to_owned(),
        fingerprint: "v2-abc".to_owned(),
        platform: platform(),
        format: ArtifactFormat::CoreModule,
        world: "wasi:cli/command".to_owned(),
    }
}

const COMPONENT: &str = r#"(component
    (core module $m (func (export "run") (result i32) (i32.const 0)))
    (core instance $i (instantiate $m))
    (func $run (result (result)) (canon lift (core func $i "run")))
    (instance $inst (export "run" (func $run)))
    (export "wasi:cli/run@0.2.6" (instance $inst)))"#;

#[test]
fn formats_are_told_by_the_header() {
    let module = wat::parse_str("(module)").expect("test WAT must compile");
    let component = wat::parse_str("(component)").expect("test WAT must compile");
    assert_eq!(detect_format(&module).ok(), Some(ArtifactFormat::CoreModule));
    assert_eq!(detect_format(&component).ok(), Some(ArtifactFormat::Component));
    assert_eq!(detect_format(b"\0asm\x0d\0\x01\0").ok(), Some(ArtifactFormat::Component));
    assert!(detect_format(b"\0asm\x02\0\0\0").is_err());
    assert!(detect_format(b"\0asm\x01\0\0").is_err());
    assert!(detect_format(b"").is_err());
    assert!(detect_format(b"not wasm").is_err());
    assert_eq!(ArtifactFormat::CoreModule.name(), "core-module");
    assert_eq!(ArtifactFormat::Component.name(), "component");
}

#[test]
fn content_identities_are_digests() {
    assert_eq!(
        artifact_digest(&[1, 2, 3]),
        "sha256:039058c6f2c0cb492c533b0a4d14ef77cc0f78abccced5287d84a1a2011cfb81"
    );
    let artifact = WasmArtifact::from_path("/a/b.wasm");
    assert_eq!(artifact.id().as_str(), "path:/a/b.wasm");
    let before = artifact.clone();
    let digest = artifact.digest(&[1, 2, 3]);
    assert_eq!(digest, artifact_digest(&[1, 2, 3]));
    assert_eq!(artifact.digest(&[9]), digest);
    assert_eq!(before.digest(&[9]), digest);
    assert_eq!(before.clone().digest(&[7, 7]), digest);
    assert_eq!(artifact.program_name(), "b.wasm");
    assert_eq!(WasmArtifact::from_path("/a/b/./").program_name(), "b");
    assert_eq!(WasmArtifact::from_path("/a/..").program_name(), "pit-wasm");
    assert_eq!(WasmArtifact::from_path("/").program_name(), "pit-wasm");
    assert_eq!(WasmArtifact::from_bytes(vec![1]).program_name(), "pit-wasm");
}

#[test]
fn the_default_root_follows_the_host() {
    let root = CompiledCacheConfig::default_root(Some("/c".to_owned()), Some("/h".to_owned()));
    assert_eq!(root.ok().as_deref(), Some("/c/pit/compiled"));
    let root = CompiledCacheConfig::default_root(None, Some("/h/".to_owned()));
    assert_eq!(root.ok().as_deref(), Some("/h/.cache/pit/compiled"));
    let failure = CompiledCacheConfig::default_root(None, None).expect_err("no home");
    assert_eq!(failure.message, "HOME is unavailable; set XDG_CACHE_HOME");
    assert_eq!(CompiledCacheConfig::new("/r".to_owned()).max_bytes, 4 << 30);
}

#[test]
fn entries_have_their_place() {
    let config = CompiledCacheConfig::new("/root".to_owned());
    let (compiled, metadata) = cache_entry_paths(&config, "sha256:abcdef", "v2-1");
    assert_eq!(compiled, "/root/sha256/ab/abcdef/v2-1/artifact.cwasm");
    assert_eq!(metadata, "/root/sha256/ab/abcdef/v2-1/metadata.json");
    let (compiled, _) = cache_entry_paths(&config, "a", "f");
    assert_eq!(compiled, "/root/sha256/a/a/f/artifact.cwasm");
    assert_eq!(temporary_file_name("metadata.json", 7, 12), ".metadata.json.tmp-7-12");
}

#[test]
fn different_entries_have_different_places() {
    let config = CompiledCacheConfig::new("/root".to_owned());
    let here = cache_entry_paths(&config, "sha256:abcdef", "v2-1");
    assert_eq!(cache_entry_paths(&config, "abcdef", "v2-1"), here);
    for (digest, fingerprint) in [("abcdee", "v2-1"), ("abcdef", "v2-2"), ("abcdefv2-1", "1")] {
        let (compiled, metadata) = cache_entry_paths(&config, digest, fingerprint);
        assert_ne!(compiled, here.0);
        assert_ne!(metadata, here.1);
        assert_ne!(compiled, here.1);
    }
}

#[test]
fn fingerprints_escape_their_texts() {
    let fingerprint = CompileFingerprint::for_engine(
        1,
        ArtifactFormat::CoreModule,
        "\"a\\b/\u{8}\t\n\u{c}\r\u{1}\u{1f}\u{7f}\u{e9}",
        &platform(),
    );
    let json = fingerprint.to_json();
    let world = r#""world":"\"a\\b/\b\t\n\f\r\u0001\u001f"#;
    assert!(json.contains(world), "{json}");
    assert!(json.contains("\u{7f}\u{e9}\","), "{json}");
}

#[test]
fn fingerprints_are_named_after_everything() {
    let fingerprint = CompileFingerprint::for_engine(
        255,
        ArtifactFormat::Component,
        "wasi:http/proxy",
        &platform(),
    );
    assert_eq!(fingerprint.target, "x86_64-linux-unix");
    assert_eq!(fingerprint.engine_compatibility_hash, "00000000000000ff");
    assert_eq!(
        fingerprint.value(),
        "v2-669a2e3787ad18c0ae846b41e37b2abdd1f682bc9d7f0f6619ec220ae7a7f43f"
    );
    let quoted = CompileFingerprint { world: "a\"b\n".to_owned(), ..fingerprint };
    assert!(quoted.to_json().contains(r#""world":"a\"b\n""#));
}

#[test]
fn only_what_was_asked_for_is_restored() {
    let entry = key("sha256:aa");
    let look = |metadata, compiled_size| CacheLookup::Present { metadata, compiled_size };
    let published = || Some(new_metadata(&entry, 10, 20));
    assert_eq!(cache_step(&CacheLookup::Absent, &entry, 10), CacheStep::Compile);
    assert_eq!(cache_step(&look(published(), Some(20)), &entry, 10), CacheStep::Restore);
    assert_eq!(cache_step(&look(published(), Some(21)), &entry, 10), CacheStep::Replace);
    assert_eq!(cache_step(&look(published(), None), &entry, 10), CacheStep::Replace);
    assert_eq!(cache_step(&look(published(), Some(20)), &entry, 11), CacheStep::Replace);
    assert_eq!(cache_step(&look(None, Some(20)), &entry, 10), CacheStep::Replace);
    let empty = Some(new_metadata(&entry, 10, 0));
    assert_eq!(cache_step(&look(empty, Some(0)), &entry, 10), CacheStep::Replace);
    for field in 0..8 {
        let mut metadata = new_metadata(&entry, 10, 20);
        let wrong = "wrong".to_owned();
        match field {
            0 => metadata.schema_version = 1,
            1 => metadata.artifact_digest = wrong,
            2 => metadata.fingerprint = wrong,
            3 => metadata.wasmtime = wrong,
            4 => metadata.target = wrong,
            5 => metadata.architecture = wrong,
            6 => metadata.format = wrong,
            _ => metadata.world = wrong,
        }
        assert_eq!(
            cache_step(&look(Some(metadata), Some(20)), &entry, 10),
            CacheStep::Replace
        );
    }
}

#[test]
fn the_oldest_entries_go_first() {
    let file = |modified: i128, size: u64, name: &str| CachedFile {
        modified,
        size,
        directory: name.to_owned(),
    };
    let files = || vec![file(30, 4, "c"), file(-10, 5, "a"), file(20, 6, "b"), file(20, 7, "d")];
    assert_eq!(eviction_plan(files(), 22), Vec::<String>::new());
    assert_eq!(eviction_plan(files(), 21), vec!["a"]);
    assert_eq!(eviction_plan(files(), 12), vec!["a", "b"]);
    assert_eq!(eviction_plan(files(), 0), vec!["a", "b", "d", "c"]);
    assert_eq!(eviction_plan(vec![], 0), Vec::<String>::new());
}

#[test]
fn warm_digests_are_listed_once_and_in_order() {
    let entry = |digest: &str, directory: &str, size: u64| {
        let found = key(digest);
        WarmEntry {
            directory_name: Some(directory.to_owned()),
            compiled_size: Some(size),
            metadata: Some(new_metadata(&found, 10, 20)),
        }
    };
    let directories = vec![
        DigestDirectory {
            name: Some("bb".to_owned()),
            entries: vec![entry("sha256:bb", "other", 20), entry("sha256:bb", "v2-abc", 20)],
        },
        DigestDirectory { name: Some("aa".to_owned()), entries: vec![entry("sha256:aa", "v2-abc", 20)] },
        DigestDirectory { name: Some("aa".to_owned()), entries: vec![entry("sha256:aa", "v2-abc", 20)] },
        DigestDirectory { name: Some("cc".to_owned()), entries: vec![entry("sha256:aa", "v2-abc", 20)] },
        DigestDirectory { name: Some("dd".to_owned()), entries: vec![entry("sha256:dd", "v2-abc", 19)] },
        DigestDirectory { name: Some("ee".to_owned()), entries: vec![] },
        DigestDirectory { name: None, entries: vec![entry("sha256:ff", "v2-abc", 20)] },
    ];
    assert_eq!(warm_digests(&directories, &platform()), vec!["sha256:aa", "sha256:bb"]);
}

#[test]
fn compiled_cache_rejects_metadata_and_size_mismatches() {
    let bytes =
        wat::parse_str("(module (func (export \"f\")))").expect("test module should compile");
    let runtime = PitRuntime::new(platform()).expect("test engine should initialize");
    let engine = runtime.http_engine();
    let digest = artifact_digest(&bytes);
    let fingerprint = engine_fingerprint(
        engine,
        ArtifactFormat::CoreModule,
        "wasi:cli/command",
        &platform(),
    );
    let wanted = CacheKey { fingerprint: fingerprint.clone(), ..key(&digest) };
    let size = bytes.len() as u64;

    assert_eq!(cache_step(&CacheLookup::Absent, &wanted, size), CacheStep::Compile);
    let first =
        compile_entry(engine, &wanted, &bytes).expect("first compilation should succeed");
    assert!(!first.bytes.is_empty());
    let compiled_size = first.bytes.len() as u64;
    let directories = vec![DigestDirectory {
        name: Some(digest["sha256:".len()..].to_owned()),
        entries: vec![WarmEntry {
            directory_name: Some(fingerprint),
            compiled_size: Some(compiled_size),
            metadata: Some(new_metadata(&wanted, size, compiled_size)),
        }],
    }];
    assert_eq!(warm_digests(&directories, &platform()), vec![artifact_digest(&bytes)]);

    let second = CacheLookup::Present {
        metadata: Some(first.metadata),
        compiled_size: Some(compiled_size),
    };
    assert_eq!(cache_step(&second, &wanted, size), CacheStep::Restore);

    let mut metadata = new_metadata(&wanted, size, compiled_size);
    metadata.fingerprint = "wrong".to_owned();
    let third =
        CacheLookup::Present { metadata: Some(metadata), compiled_size: Some(compiled_size) };
    assert_eq!(cache_step(&third, &wanted, size), CacheStep::Replace);

    let fourth = CacheLookup::Present {
        metadata: Some(new_metadata(&wanted, size, compiled_size)),
        compiled_size: Some(1),
    };
    assert_eq!(cache_step(&fourth, &wanted, size), CacheStep::Replace);

    let component = CacheKey { format: ArtifactFormat::Component, ..key(&digest) };
    assert!(compile_entry(engine, &component, &bytes).is_err());
}

fn begun(mode: CompiledCacheRestoreMode) -> (PitRuntime, CachedStart) {
    let runtime = PitRuntime::with_config(
        PitRuntimeConfig { compiled_cache_restore: mode, ..PitRuntimeConfig::default() },
        platform(),
    )
    .expect("HTTP runtime should initialize");
    let bytes = wat::parse_str(COMPONENT).expect("test component should compile");
    let cache = CompiledCacheConfig::new("/cache".to_owned());
    let start = runtime
        .prepare_http_cached(WasmArtifact::from_bytes(bytes), FoundFile::Missing, &cache)
        .expect("component should be read");
    (runtime, start)
}

#[test]
fn corrupted_file_backed_component_cache_recompiles_from_wasm() {
    let (_, start) = begun(CompiledCacheRestoreMode::FileBacked);
    let CachedStart::Begun(artifact, mut first) = start else {
        panic!("components go through the cache");
    };
    let now = Span::from_nanos(1);
    assert_eq!(first.looked_up(CacheLookup::Absent, now, now, now), CacheStep::Compile);
    assert_eq!(first.phase(), Phase::Compile);
    let entry = first
        .compile(&Instant::now())
        .expect("component should compile");
    assert_eq!(first.phase(), Phase::Publish);
    first.published(now);
    assert_eq!(first.loaded(LoadOutcome::Loaded, now, now).ok(), Some(AfterLoad::Link));
    let report = first.linked(now, now, now, now);
    assert_eq!(report.source, CompiledCacheSource::ColdCompiled);

    let (_, start) = begun(CompiledCacheRestoreMode::FileBacked);
    let CachedStart::Begun(_, mut second) = start else {
        panic!("components go through the cache");
    };
    let size = entry.bytes.len() as u64;
    let found = CacheLookup::Present { metadata: Some(entry.metadata), compiled_size: Some(size) };
    assert_eq!(second.looked_up(found, now, now, now), CacheStep::Restore);
    assert_eq!(
        second.loaded(LoadOutcome::Rejected("corrupt".to_owned()), now, now).ok(),
        Some(AfterLoad::Discard)
    );
    assert_eq!(second.phase(), Phase::LookUp);
    assert_eq!(second.looked_up(CacheLookup::Absent, now, now, now), CacheStep::Compile);
    let compile_started = Instant::now();
    second
        .compile(&compile_started)
        .expect("corrupt derived cache should fall back to WASM");
    second.published(now);
    assert_eq!(second.loaded(LoadOutcome::Loaded, now, now).ok(), Some(AfterLoad::Link));
    let report = second.linked(now, now, now, now);
    assert_eq!(report.source, CompiledCacheSource::ColdCompiled);
    assert_eq!(report.readiness, ReadinessState::Cold);
    assert!(report.compile_duration.nanos > 0);
    let prepared = PreparedArtifact::for_http(artifact, true);
    assert_eq!(prepared.http(), HttpHalf::Resolved);
    assert_eq!(prepared.default_entrypoint(), "wasi:cli/command");
}

#[test]
fn a_component_in_a_file_is_kept_under_the_digest_of_its_bytes() {
    let runtime = PitRuntime::new(platform()).expect("HTTP runtime should initialize");
    let cache = CompiledCacheConfig::new("/cache".to_owned());
    let bytes = wat::parse_str(COMPONENT).expect("test component should compile");
    let digest = artifact_digest(&bytes);
    let artifact = WasmArtifact::from_path("/somewhere.wasm");
    let start = runtime
        .prepare_http_cached(artifact.clone(), FoundFile::Contents(bytes), &cache)
        .expect("component should be read");
    let CachedStart::Begun(_, preparation) = start else {
        panic!("components go through the cache");
    };
    assert!(preparation.cache_path().contains(&digest["sha256:".len()..]));
    assert_eq!(artifact.digest(b"other bytes"), digest);
}

#[test]
fn a_restored_entry_is_warm() {
    let (_, start) = begun(CompiledCacheRestoreMode::Bytes);
    let CachedStart::Begun(_, mut preparation) = start else {
        panic!("components go through the cache");
    };
    let bytes = wat::parse_str(COMPONENT).expect("test component should compile");
    let digest = artifact_digest(&bytes);
    assert!(preparation.cache_path().starts_with("/cache/sha256/"));
    assert!(preparation.cache_path().contains(&digest["sha256:".len()..]));
    assert!(preparation.metadata_path().ends_with("/metadata.json"));
    let fingerprint = preparation
        .cache_path()
        .trim_end_matches("/artifact.cwasm")
        .rsplit('/')
        .next()
        .expect("the fingerprint is a directory")
        .to_owned();
    let wanted = CacheKey {
        digest,
        fingerprint,
        platform: platform(),
        format: ArtifactFormat::Component,
        world: "wasi:http/proxy".to_owned(),
    };
    let found = CacheLookup::Present {
        metadata: Some(new_metadata(&wanted, bytes.len() as u64, 9)),
        compiled_size: Some(9),
    };
    let nanos = Span::from_nanos;
    assert_eq!(preparation.looked_up(found, nanos(1), nanos(2), nanos(3)), CacheStep::Restore);
    assert!(preparation.loaded(LoadOutcome::Loaded, nanos(40), nanos(5)).is_ok());
    let report = preparation.linked(nanos(6), nanos(7), nanos(8), nanos(9));
    assert_eq!(report.readiness, ReadinessState::Warm);
    assert_eq!(report.source, CompiledCacheSource::WarmRestored);
    assert_eq!(report.cache_metadata_lookup_duration, nanos(1));
    assert_eq!(report.cache_file_read_duration, nanos(42));
    assert_eq!(report.cache_deserialize_duration, nanos(5));
    assert_eq!(report.http_linker_setup_duration, nanos(6));
    assert_eq!(report.restore_duration, nanos(9));
}

#[test]
fn failures_to_load_say_where() {
    let fresh = |source: bool| {
        let (_, start) = begun(CompiledCacheRestoreMode::Bytes);
        let CachedStart::Begun(_, mut preparation) = start else {
            panic!("components go through the cache");
        };
        let now = Span::from_nanos(1);
        if source {
            preparation.looked_up(CacheLookup::Absent, now, now, now);
            preparation
                .compile(&Instant::now())
                .expect("component should compile");
            preparation.published(now);
        }
        preparation
    };
    let now = Span::from_nanos(1);
    let mut preparation = fresh(true);
    let failure = preparation
        .loaded(LoadOutcome::Rejected("bad".to_owned()), now, now)
        .expect_err("a fresh entry is not rebuilt");
    assert_eq!(failure.message, "compiled HTTP component deserialization failed");
    assert_eq!(failure.describe(), "compiled HTTP component deserialization failed: bad");
    let mut preparation = fresh(true);
    let failure = preparation
        .loaded(LoadOutcome::Unreadable("gone".to_owned()), now, now)
        .expect_err("an unreadable entry is an error");
    assert!(failure.message.starts_with("failed to read compiled cache /cache/sha256/"));
    assert_eq!(failure.cause.as_deref(), Some("gone"));
}

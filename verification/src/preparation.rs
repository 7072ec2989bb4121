//! Preparing an HTTP component through the cache of compiled artifacts.
//!
//! The host reads and writes the cache and loads compiled code; what is done
//! next is decided here. An entry that turns out to be corrupt is discarded and
//! compiled once more from the artifact.

use vstd::prelude::*;

use crate::cache;
use crate::cache::{
    cache_entry_paths, cache_step, compile_entry, published_entry, restored_entry, CacheKey,
    CacheLookup, CacheStep, CompiledCacheConfig, CompiledCacheEntry, CompiledCacheSource,
    NewCacheEntry,
};
use crate::clock::Span;
use crate::failure::Failure;
use crate::guest::GuestEngine;
use crate::path;
use crate::runtime::CompiledCacheRestoreMode;
use crate::text::concat2;

verus! {

/// How far an artifact is prepared: not compiled, compiled, or in memory.
#[derive(Debug, Clone, Copy, PartialEq, Eq, Structural)]
pub enum ReadinessState {
    Cold,
    Warm,
    Hot,
}

/// How an artifact was prepared, and how long each step took.
#[derive(Debug, Clone, Copy, PartialEq, Eq, Structural)]
pub struct PreparationReport {
    pub readiness: ReadinessState,
    pub source: CompiledCacheSource,
    pub compile_duration: Span,
    pub restore_duration: Span,
    pub cache_publication_duration: Span,
    pub cache_metadata_lookup_duration: Span,
    pub compile_fingerprint_duration: Span,
    pub artifact_digest_duration: Span,
    pub cache_file_read_duration: Span,
    pub cache_deserialize_duration: Span,
    pub http_linker_setup_duration: Span,
    pub linker_preparation_duration: Span,
    pub prepared_object_construction_duration: Span,
}

/// A span of no time.
pub open spec fn no_time() -> Span {
    Span { nanos: 0 }
}

/// The report on an artifact that was compiled without the cache.
pub open spec fn plain_report() -> PreparationReport {
    PreparationReport {
        readiness: ReadinessState::Cold,
        source: CompiledCacheSource::ColdCompiled,
        compile_duration: no_time(),
        restore_duration: no_time(),
        cache_publication_duration: no_time(),
        cache_metadata_lookup_duration: no_time(),
        compile_fingerprint_duration: no_time(),
        artifact_digest_duration: no_time(),
        cache_file_read_duration: no_time(),
        cache_deserialize_duration: no_time(),
        http_linker_setup_duration: no_time(),
        linker_preparation_duration: no_time(),
        prepared_object_construction_duration: no_time(),
    }
}

impl Default for PreparationReport {
    fn default() -> (report: Self)
        ensures
            report == plain_report(),
    {
        PreparationReport {
            readiness: ReadinessState::Cold,
            source: CompiledCacheSource::ColdCompiled,
            compile_duration: Span::zero(),
            restore_duration: Span::zero(),
            cache_publication_duration: Span::zero(),
            cache_metadata_lookup_duration: Span::zero(),
            compile_fingerprint_duration: Span::zero(),
            artifact_digest_duration: Span::zero(),
            cache_file_read_duration: Span::zero(),
            cache_deserialize_duration: Span::zero(),
            http_linker_setup_duration: Span::zero(),
            linker_preparation_duration: Span::zero(),
            prepared_object_construction_duration: Span::zero(),
        }
    }
}

/// The report on an entry of the cache that is ready to be loaded. One that
/// replaces a corrupt entry counts as cold, wherever it came from.
pub open spec fn entry_report(
    entry: CompiledCacheEntry,
    rebuilt: bool,
    digest_duration: Span,
) -> PreparationReport {
    PreparationReport {
        readiness: if entry.source == CompiledCacheSource::WarmRestored && !rebuilt {
            ReadinessState::Warm
        } else {
            ReadinessState::Cold
        },
        source: entry.source,
        compile_duration: entry.compile_duration,
        restore_duration: entry.restore_duration,
        cache_publication_duration: entry.publication_duration,
        cache_metadata_lookup_duration: entry.metadata_lookup_duration,
        compile_fingerprint_duration: entry.fingerprint_duration,
        artifact_digest_duration: digest_duration,
        cache_file_read_duration: entry.file_read_duration,
        ..plain_report()
    }
}

/// The report on an entry that was restored, perhaps in place of a corrupt one.
pub open spec fn restored_report(
    rebuilt: bool,
    digest: Span,
    metadata_lookup: Span,
    file_read: Span,
    restore: Span,
) -> PreparationReport {
    PreparationReport {
        readiness: if rebuilt {
            ReadinessState::Cold
        } else {
            ReadinessState::Warm
        },
        source: CompiledCacheSource::WarmRestored,
        restore_duration: restore,
        cache_metadata_lookup_duration: metadata_lookup,
        artifact_digest_duration: digest,
        cache_file_read_duration: file_read,
        ..plain_report()
    }
}

/// The report on an entry that was compiled and published.
pub open spec fn compiled_report(
    digest: Span,
    metadata_lookup: Span,
    compile: Span,
    publication: Span,
) -> PreparationReport {
    PreparationReport {
        compile_duration: compile,
        cache_publication_duration: publication,
        cache_metadata_lookup_duration: metadata_lookup,
        artifact_digest_duration: digest,
        ..plain_report()
    }
}

/// The report on an entry of the cache that is ready to be loaded.
pub fn report_on_entry(entry: &CompiledCacheEntry, rebuilt: bool, digest_duration: Span) -> (report:
    PreparationReport)
    ensures
        report == entry_report(*entry, rebuilt, digest_duration),
{
    let warm = match entry.source {
        CompiledCacheSource::WarmRestored => !rebuilt,
        CompiledCacheSource::ColdCompiled => false,
    };
    PreparationReport {
        readiness: if warm {
            ReadinessState::Warm
        } else {
            ReadinessState::Cold
        },
        source: entry.source,
        compile_duration: entry.compile_duration,
        restore_duration: entry.restore_duration,
        cache_publication_duration: entry.publication_duration,
        cache_metadata_lookup_duration: entry.metadata_lookup_duration,
        compile_fingerprint_duration: entry.fingerprint_duration,
        artifact_digest_duration: digest_duration,
        cache_file_read_duration: entry.file_read_duration,
        ..PreparationReport::default()
    }
}

/// What the host does next.
#[derive(Debug, Clone, Copy, PartialEq, Eq, Structural)]
pub enum Phase {
    /// Look the entry up.
    LookUp,
    /// Compile a new entry.
    Compile,
    /// Write the new entry.
    Publish,
    /// Load the compiled artifact.
    Load,
    /// Bind the imports.
    Link,
}

/// What came of loading a compiled artifact.
#[derive(Debug)]
pub enum LoadOutcome {
    Loaded,
    /// The file could not be read; the host says why.
    Unreadable(String),
    /// The engine refused the compiled artifact and says why.
    Rejected(String),
}

/// What to do after a compiled artifact was loaded.
#[derive(Debug, Clone, Copy, PartialEq, Eq, Structural)]
pub enum AfterLoad {
    /// Bind the imports.
    Link,
    /// Remove the entry and look it up again.
    Discard,
}

/// An HTTP component on its way out of the cache.
pub struct CachedPreparation {
    engine: GuestEngine,
    key: CacheKey,
    source: Vec<u8>,
    mode: CompiledCacheRestoreMode,
    cache_path: String,
    metadata_path: String,
    digest_duration: Span,
    lookup_duration: Span,
    compile_duration: Span,
    phase: Phase,
    /// Why the entry was discarded, once it was.
    discarded: Option<String>,
    report: PreparationReport,
}

impl CachedPreparation {
    /// The fingerprint of what is prepared is that of the engine that compiles it.
    #[verifier::type_invariant]
    spec fn sound(self) -> bool {
        cache::names_engine(
            self.key.fingerprint@,
            self.engine.made_with(),
            self.key.format,
            self.key.world@,
            self.key.platform,
        )
    }

    /// The engine that compiles.
    pub closed spec fn compiles_with(&self) -> GuestEngine {
        self.engine
    }

    /// What is prepared.
    pub closed spec fn wanted(&self) -> CacheKey {
        self.key
    }

    /// The bytes of the artifact.
    pub closed spec fn artifact_bytes(&self) -> Seq<u8> {
        self.source@
    }

    /// How compiled artifacts are loaded.
    pub closed spec fn restore_mode(&self) -> CompiledCacheRestoreMode {
        self.mode
    }

    /// Where the compiled artifact is.
    pub closed spec fn compiled_at(&self) -> Seq<char> {
        self.cache_path@
    }

    /// Where its metadata are.
    pub closed spec fn described_at(&self) -> Seq<char> {
        self.metadata_path@
    }

    /// How long the digest took.
    pub closed spec fn digest_time(&self) -> Span {
        self.digest_duration
    }

    /// How long the last lookup took.
    pub closed spec fn lookup_time(&self) -> Span {
        self.lookup_duration
    }

    /// How long the last compilation took.
    pub closed spec fn compile_time(&self) -> Span {
        self.compile_duration
    }

    /// What the host does next.
    pub closed spec fn next(&self) -> Phase {
        self.phase
    }

    /// Why the entry was discarded, once it was.
    pub closed spec fn discard_reason(&self) -> Option<Seq<char>> {
        crate::text::optional_text(self.discarded)
    }

    /// The report so far.
    pub closed spec fn reported(&self) -> PreparationReport {
        self.report
    }

    /// What does not change on the way.
    pub open spec fn same_job(&self, other: &CachedPreparation) -> bool {
        &&& self.compiles_with() == other.compiles_with()
        &&& self.wanted() == other.wanted()
        &&& self.artifact_bytes() == other.artifact_bytes()
        &&& self.restore_mode() == other.restore_mode()
        &&& self.compiled_at() == other.compiled_at()
        &&& self.described_at() == other.described_at()
        &&& self.digest_time() == other.digest_time()
    }

    /// How many steps are left at the most.
    pub open spec fn steps_left(&self) -> int {
        (match self.next() {
            Phase::LookUp => 5int,
            Phase::Compile => 4int,
            Phase::Publish => 3int,
            Phase::Load => 2int,
            Phase::Link => 1int,
        }) + if self.discard_reason() is None && self.next() != Phase::Link {
            5int
        } else {
            0int
        }
    }

    /// A preparation ends: whatever the host finds, there are at most ten steps
    /// to it, and each of them leaves fewer.
    pub proof fn law_preparations_end(&self)
        ensures
            1 <= self.steps_left() <= 10,
    {
    }

    /// Starts a preparation: the entry is looked up first. The fingerprint is that
    /// of the engine.
    pub(crate) fn begin(
        engine: GuestEngine,
        config: &CompiledCacheConfig,
        key: CacheKey,
        source: Vec<u8>,
        mode: CompiledCacheRestoreMode,
        digest_duration: Span,
    ) -> (preparation: CachedPreparation)
        requires
            cache::first_two_bytes(cache::bare_digest(key.digest@)) is Some,
            cache::names_engine(
                key.fingerprint@,
                engine.made_with(),
                key.format,
                key.world@,
                key.platform,
            ),
        ensures
            preparation.compiles_with() == engine,
            preparation.wanted() == key,
            preparation.artifact_bytes() == source@,
            preparation.restore_mode() == mode,
            preparation.compiled_at() == path::joined(
                cache::entry_directory(config.root@, key.digest@, key.fingerprint@),
                "artifact.cwasm"@,
            ),
            preparation.described_at() == path::joined(
                cache::entry_directory(config.root@, key.digest@, key.fingerprint@),
                "metadata.json"@,
            ),
            preparation.digest_time() == digest_duration,
            preparation.next() == Phase::LookUp,
            preparation.discard_reason() is None,
            preparation.reported() == plain_report(),
    {
        let (cache_path, metadata_path) = cache_entry_paths(
            config,
            key.digest.as_str(),
            key.fingerprint.as_str(),
        );
        CachedPreparation {
            engine,
            key,
            source,
            mode,
            cache_path,
            metadata_path,
            digest_duration,
            lookup_duration: Span::zero(),
            compile_duration: Span::zero(),
            phase: Phase::LookUp,
            discarded: None,
            report: PreparationReport::default(),
        }
    }

    /// Where the compiled artifact is.
    pub fn cache_path(&self) -> (path: &str)
        ensures
            path@ == self.compiled_at(),
    {
        self.cache_path.as_str()
    }

    /// Where its metadata are.
    pub fn metadata_path(&self) -> (path: &str)
        ensures
            path@ == self.described_at(),
    {
        self.metadata_path.as_str()
    }

    /// How the compiled artifact is loaded.
    pub fn mode(&self) -> (mode: CompiledCacheRestoreMode)
        ensures
            mode == self.restore_mode(),
    {
        self.mode
    }

    /// What the host does next.
    pub fn phase(&self) -> (phase: Phase)
        ensures
            phase == self.next(),
    {
        self.phase
    }

    /// The host has looked the entry up. A good entry is loaded; otherwise the
    /// artifact is to be compiled.
    pub fn looked_up(
        &mut self,
        lookup: CacheLookup,
        metadata_lookup_duration: Span,
        file_read_duration: Span,
        restore_duration: Span,
    ) -> (step: CacheStep)
        requires
            old(self).next() == Phase::LookUp,
        ensures
            final(self).same_job(old(self)),
            final(self).discard_reason() == old(self).discard_reason(),
            final(self).compile_time() == old(self).compile_time(),
            final(self).lookup_time() == metadata_lookup_duration,
            step == cache::step_for(
                lookup,
                old(self).wanted(),
                old(self).artifact_bytes().len() as int,
            ),
            match step {
                CacheStep::Restore => final(self).next() == Phase::Load && final(self).reported()
                    == restored_report(
                    old(self).discard_reason() is Some,
                    old(self).digest_time(),
                    metadata_lookup_duration,
                    file_read_duration,
                    restore_duration,
                ),
                _ => final(self).next() == Phase::Compile && final(self).reported() == old(
                    self,
                ).reported(),
            },
            final(self).steps_left() < old(self).steps_left(),
    {
        proof {
            use_type_invariant(&*self);
        }
        let step = cache_step(&lookup, &self.key, self.source.len() as u64);
        self.lookup_duration = metadata_lookup_duration;
        match step {
            CacheStep::Restore => {
                let entry = restored_entry(
                    self.cache_path.clone(),
                    metadata_lookup_duration,
                    file_read_duration,
                    restore_duration,
                );
                self.report = report_on_entry(
                    &entry,
                    self.discarded.is_some(),
                    self.digest_duration,
                );
                self.phase = Phase::Load;
            },
            _ => {
                self.phase = Phase::Compile;
            },
        }
        step
    }

    /// Compiles the artifact into the entry that the host is to write, with the
    /// engine that the fingerprint is named after.
    pub fn compile(&mut self, begun: &std::time::Instant) -> (compiled: Result<
        NewCacheEntry,
        Failure,
    >)
        requires
            old(self).next() == Phase::Compile,
        ensures
            final(self).same_job(old(self)),
            cache::names_engine(
                final(self).wanted().fingerprint@,
                final(self).compiles_with().made_with(),
                final(self).wanted().format,
                final(self).wanted().world@,
                final(self).wanted().platform,
            ),
            final(self).next() == if compiled is Ok {
                Phase::Publish
            } else {
                Phase::Compile
            },
            compiled is Ok ==> final(self).steps_left() < old(self).steps_left(),
            final(self).discard_reason() == old(self).discard_reason(),
            final(self).lookup_time() == old(self).lookup_time(),
            final(self).reported() == old(self).reported(),
            match compiled {
                Ok(entry) => {
                    &&& cache::may_compile(
                        old(self).compiles_with().made_with(),
                        old(self).wanted().format,
                        old(self).artifact_bytes(),
                        Some(entry.bytes@),
                    )
                    &&& cache::describes(
                        entry.metadata,
                        old(self).wanted(),
                        old(self).artifact_bytes().len() as int,
                        entry.bytes@.len() as int,
                    )
                },
                Err(failure) => failure.cause is None && cache::may_compile(
                    old(self).compiles_with().made_with(),
                    old(self).wanted().format,
                    old(self).artifact_bytes(),
                    None,
                ),
            },
    {
        proof {
            use_type_invariant(&*self);
        }
        let compiled = compile_entry(&self.engine, &self.key, self.source.as_slice());
        self.compile_duration = Span::since(begun);
        if compiled.is_ok() {
            self.phase = Phase::Publish;
        }
        compiled
    }

    /// The host has written the entry that was compiled, which is loaded next.
    pub fn published(&mut self, publication_duration: Span)
        requires
            old(self).next() == Phase::Publish,
        ensures
            final(self).same_job(old(self)),
            final(self).next() == Phase::Load,
            final(self).discard_reason() == old(self).discard_reason(),
            final(self).lookup_time() == old(self).lookup_time(),
            final(self).compile_time() == old(self).compile_time(),
            final(self).reported() == compiled_report(
                old(self).digest_time(),
                old(self).lookup_time(),
                old(self).compile_time(),
                publication_duration,
            ),
            final(self).steps_left() < old(self).steps_left(),
    {
        proof {
            use_type_invariant(&*self);
        }
        let entry = published_entry(
            self.cache_path.clone(),
            self.lookup_duration,
            self.compile_duration,
            publication_duration,
        );
        self.report = report_on_entry(&entry, self.discarded.is_some(), self.digest_duration);
        self.phase = Phase::Load;
    }

    /// The host has loaded the compiled artifact, or failed to. A restored entry
    /// that the engine refuses is discarded, once; every other failure ends the
    /// preparation.
    pub fn loaded(&mut self, outcome: LoadOutcome, read_duration: Span, deserialize_duration: Span)
        -> (after: Result<AfterLoad, Failure>)
        requires
            old(self).next() == Phase::Load,
            old(self).reported().cache_file_read_duration.nanos + read_duration.nanos
                <= u128::MAX,
        ensures
            final(self).same_job(old(self)),
            final(self).lookup_time() == old(self).lookup_time(),
            final(self).compile_time() == old(self).compile_time(),
            match (outcome, old(self).discard_reason()) {
                (LoadOutcome::Loaded, reason) => {
                    &&& after == Ok::<AfterLoad, Failure>(AfterLoad::Link)
                    &&& final(self).next() == Phase::Link
                    &&& final(self).discard_reason() == reason
                    &&& final(self).reported() == (PreparationReport {
                        cache_file_read_duration: if reason is None && old(self).restore_mode()
                            == CompiledCacheRestoreMode::Bytes {
                            Span {
                                nanos: (old(self).reported().cache_file_read_duration.nanos
                                    + read_duration.nanos) as u128,
                            }
                        } else {
                            old(self).reported().cache_file_read_duration
                        },
                        cache_deserialize_duration: deserialize_duration,
                        ..old(self).reported()
                    })
                },
                (LoadOutcome::Unreadable(cause), None) => after matches Err(failure)
                    && failure.message@ == "failed to read compiled cache "@ + old(
                    self,
                ).compiled_at() && failure.cause == Some(cause),
                (LoadOutcome::Unreadable(cause), Some(_)) => after matches Err(failure)
                    && failure.says(cause@),
                (LoadOutcome::Rejected(cause), None) => if old(self).reported().source
                    == CompiledCacheSource::WarmRestored {
                    &&& after == Ok::<AfterLoad, Failure>(AfterLoad::Discard)
                    &&& final(self).next() == Phase::LookUp
                    &&& final(self).discard_reason() == Some(cause@)
                } else {
                    after matches Err(failure) && failure.message@
                        == "compiled HTTP component deserialization failed"@ && failure.cause
                        == Some(cause)
                },
                (LoadOutcome::Rejected(cause), Some(first)) => after matches Err(failure)
                    && failure.message@
                    == "compiled HTTP component deserialization failed after cache rebuild: "@
                    + first && failure.cause == Some(cause),
            },
            after is Ok ==> final(self).steps_left() < old(self).steps_left(),
    {
        proof {
            use_type_invariant(&*self);
        }
        match outcome {
            LoadOutcome::Loaded => {
                let by_bytes = match self.mode {
                    CompiledCacheRestoreMode::Bytes => true,
                    CompiledCacheRestoreMode::FileBacked => false,
                };
                if by_bytes && self.discarded.is_none() {
                    let nanos = self.report.cache_file_read_duration.nanos + read_duration.nanos;
                    self.report.cache_file_read_duration = Span { nanos };
                }
                self.report.cache_deserialize_duration = deserialize_duration;
                self.phase = Phase::Link;
                Ok(AfterLoad::Link)
            },
            LoadOutcome::Unreadable(cause) => {
                if self.discarded.is_some() {
                    return Err(Failure::of(cause));
                }
                let message = concat2("failed to read compiled cache ", self.cache_path.as_str());
                Err(Failure::caused(message.as_str(), cause))
            },
            LoadOutcome::Rejected(cause) => {
                if let Some(first) = &self.discarded {
                    let message = concat2(
                        "compiled HTTP component deserialization failed after cache rebuild: ",
                        first.as_str(),
                    );
                    return Err(Failure::caused(message.as_str(), cause));
                }
                match self.report.source {
                    CompiledCacheSource::WarmRestored => {
                        self.discarded = Some(cause);
                        self.phase = Phase::LookUp;
                        Ok(AfterLoad::Discard)
                    },
                    CompiledCacheSource::ColdCompiled => Err(
                        Failure::caused("compiled HTTP component deserialization failed", cause),
                    ),
                }
            },
        }
    }

    /// The host has bound the imports: the preparation is done.
    pub fn linked(
        self,
        http_linker_setup_duration: Span,
        linker_preparation_duration: Span,
        prepared_object_construction_duration: Span,
        restore_duration: Span,
    ) -> (report: PreparationReport)
        requires
            self.next() == Phase::Link,
        ensures
            report == (PreparationReport {
                http_linker_setup_duration,
                linker_preparation_duration,
                prepared_object_construction_duration,
                restore_duration,
                ..self.reported()
            }),
    {
        PreparationReport {
            http_linker_setup_duration,
            linker_preparation_duration,
            prepared_object_construction_duration,
            restore_duration,
            ..self.report
        }
    }
}

/// A report tells where the artifact came from and how long each step took, as it
/// was. It is warm exactly where the entry was restored and did not have to be
/// made anew, and never hot; nothing is told of what has not been done yet.
pub proof fn law_reports_tell_what_was_done(
    entry: CompiledCacheEntry,
    rebuilt: bool,
    digest_duration: Span,
    report: PreparationReport,
)
    requires
        call_ensures(report_on_entry, (&entry, rebuilt, digest_duration), report),
    ensures
        report.readiness == ReadinessState::Warm <==> entry.source
            == CompiledCacheSource::WarmRestored && !rebuilt,
        report.readiness != ReadinessState::Hot,
        report.source == entry.source,
        report.compile_duration == entry.compile_duration,
        report.restore_duration == entry.restore_duration,
        report.cache_publication_duration == entry.publication_duration,
        report.cache_metadata_lookup_duration == entry.metadata_lookup_duration,
        report.compile_fingerprint_duration == entry.fingerprint_duration,
        report.cache_file_read_duration == entry.file_read_duration,
        report.artifact_digest_duration == digest_duration,
        report.cache_deserialize_duration.nanos == 0,
        report.http_linker_setup_duration.nanos == 0,
        report.linker_preparation_duration.nanos == 0,
        report.prepared_object_construction_duration.nanos == 0,
{
}

/// A restored entry was not compiled, and a compiled one was not restored: the
/// first spent no time on compiling or publishing, the second none on restoring or
/// reading.
pub proof fn law_entries_are_restored_or_compiled(
    rebuilt: bool,
    digest: Span,
    metadata_lookup: Span,
    file_read: Span,
    restore: Span,
    compile: Span,
    publication: Span,
)
    ensures
        ({
            let report = restored_report(rebuilt, digest, metadata_lookup, file_read, restore);
            &&& report.source == CompiledCacheSource::WarmRestored
            &&& (report.readiness == ReadinessState::Warm <==> !rebuilt)
            &&& report.restore_duration == restore
            &&& report.cache_file_read_duration == file_read
            &&& report.cache_metadata_lookup_duration == metadata_lookup
            &&& report.artifact_digest_duration == digest
            &&& report.compile_duration.nanos == 0
            &&& report.cache_publication_duration.nanos == 0
        }),
        ({
            let report = compiled_report(digest, metadata_lookup, compile, publication);
            &&& report.source == CompiledCacheSource::ColdCompiled
            &&& report.readiness == ReadinessState::Cold
            &&& report.compile_duration == compile
            &&& report.cache_publication_duration == publication
            &&& report.cache_metadata_lookup_duration == metadata_lookup
            &&& report.artifact_digest_duration == digest
            &&& report.restore_duration.nanos == 0
            &&& report.cache_file_read_duration.nanos == 0
        }),
{
}

impl CachedPreparation {
    /// A restored entry that the engine refuses is discarded, once, and looked up
    /// again; the second time, and for an entry that was just compiled, it ends the
    /// preparation. What was loaded is linked, and what could not be read ends it.
    pub proof fn law_refused_entries_are_discarded_once(
        preparation: &mut CachedPreparation,
        outcome: LoadOutcome,
        read_duration: Span,
        deserialize_duration: Span,
        after: Result<AfterLoad, Failure>,
    )
        requires
            call_ensures(
                CachedPreparation::loaded,
                (preparation, outcome, read_duration, deserialize_duration),
                after,
            ),
        ensures
            after is Ok && after->Ok_0 == AfterLoad::Link <==> outcome is Loaded,
            after is Ok && after->Ok_0 == AfterLoad::Discard <==> outcome is Rejected && old(
                preparation,
            ).discard_reason() is None && old(preparation).reported().source
                == CompiledCacheSource::WarmRestored,
            outcome is Loaded ==> final(preparation).next() == Phase::Link
                && final(preparation).reported().cache_deserialize_duration == deserialize_duration
                && final(preparation).reported().source == old(preparation).reported().source
                && final(preparation).reported().readiness == old(
                preparation,
            ).reported().readiness,
            outcome is Loaded && (old(preparation).discard_reason() is Some || old(
                preparation,
            ).restore_mode() != CompiledCacheRestoreMode::Bytes)
                ==> final(preparation).reported().cache_file_read_duration == old(
                preparation,
            ).reported().cache_file_read_duration,
            after is Ok && after->Ok_0 == AfterLoad::Discard ==> final(preparation).next()
                == Phase::LookUp && final(preparation).discard_reason() is Some,
            after is Ok ==> final(preparation).steps_left() < old(preparation).steps_left(),
    {
    }

    /// A looked-up entry is loaded exactly where it is restored, and everything else
    /// is compiled; what is published is loaded next.
    pub proof fn law_entries_are_loaded_or_compiled(
        preparation: &mut CachedPreparation,
        lookup: CacheLookup,
        metadata_lookup_duration: Span,
        file_read_duration: Span,
        restore_duration: Span,
        step: CacheStep,
        publishing: &mut CachedPreparation,
        publication_duration: Span,
    )
        requires
            call_ensures(
                CachedPreparation::looked_up,
                (
                    preparation,
                    lookup,
                    metadata_lookup_duration,
                    file_read_duration,
                    restore_duration,
                ),
                step,
            ),
            call_ensures(CachedPreparation::published, (publishing, publication_duration), ()),
        ensures
            final(preparation).next() == Phase::Load <==> step == CacheStep::Restore,
            final(preparation).next() == Phase::Compile <==> step != CacheStep::Restore,
            step == CacheStep::Compile <==> lookup is Absent,
            step == CacheStep::Restore ==> final(preparation).reported().source
                == CompiledCacheSource::WarmRestored && (final(preparation).reported().readiness
                == ReadinessState::Warm <==> old(preparation).discard_reason() is None)
                && final(preparation).reported().restore_duration == restore_duration,
            final(publishing).next() == Phase::Load,
            final(publishing).reported().source == CompiledCacheSource::ColdCompiled,
            final(publishing).reported().readiness == ReadinessState::Cold,
            final(publishing).reported().cache_publication_duration == publication_duration,
            final(publishing).reported().compile_duration == old(publishing).compile_time(),
    {
    }
}

/// What is linked adds the times of linking to the report, and changes nothing else
/// of it.
pub proof fn law_linking_adds_its_times(
    preparation: CachedPreparation,
    setup: Span,
    linking: Span,
    construction: Span,
    restore: Span,
    report: PreparationReport,
)
    requires
        call_ensures(
            CachedPreparation::linked,
            (preparation, setup, linking, construction, restore),
            report,
        ),
    ensures
        report.http_linker_setup_duration == setup,
        report.linker_preparation_duration == linking,
        report.prepared_object_construction_duration == construction,
        report.restore_duration == restore,
        report.readiness == preparation.reported().readiness,
        report.source == preparation.reported().source,
        report.compile_duration == preparation.reported().compile_duration,
        report.cache_publication_duration == preparation.reported().cache_publication_duration,
        report.cache_file_read_duration == preparation.reported().cache_file_read_duration,
        report.cache_deserialize_duration == preparation.reported().cache_deserialize_duration,
        report.artifact_digest_duration == preparation.reported().artifact_digest_duration,
{
}

} // verus!

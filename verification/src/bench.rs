//! Measurements of the fast path: what is asked for, what is sampled, and what
//! the samples come to.

use vstd::prelude::*;

use crate::cache::CompiledCacheSource;
use crate::clock::Span;
use crate::failure::Failure;
use crate::garage::HttpDispatchResult;
use crate::number::parse_number;
use crate::order::sort;
use crate::preparation::{PreparationReport, ReadinessState};
use crate::runtime::{CompiledCacheRestoreMode, PitRuntimeConfig, RuntimeAllocationMode};
use crate::text::{concat2, includes, same, split_char, split_once, split_words, trim};
use crate::{number, order, text};

verus! {

/// What is measured, and how.
#[derive(Debug)]
pub struct BenchOptions {
    pub artifact: Option<String>,
    pub output: Option<String>,
    pub phase: String,
    pub lanes: usize,
    pub samples: usize,
    pub compiled_cache: Option<String>,
    pub restore_mode: CompiledCacheRestoreMode,
    pub pooling: bool,
    pub pooling_slots: Option<usize>,
    pub memory_init_cow: Option<bool>,
    pub pre_resolved_imports: bool,
}

impl BenchOptions {
    /// What is measured where nothing is said.
    pub fn new() -> (options: BenchOptions)
        ensures
            options.artifact is None,
            options.output is None,
            options.phase@ == "before"@,
            options.lanes == 8,
            options.samples == 100,
            options.compiled_cache is None,
            options.restore_mode == CompiledCacheRestoreMode::FileBacked,
            !options.pooling,
            options.pooling_slots is None,
            options.memory_init_cow is None,
            options.pre_resolved_imports,
    {
        BenchOptions {
            artifact: None,
            output: None,
            phase: "before".to_owned(),
            lanes: 8,
            samples: 100,
            compiled_cache: None,
            restore_mode: CompiledCacheRestoreMode::FileBacked,
            pooling: false,
            pooling_slots: None,
            memory_init_cow: None,
            pre_resolved_imports: true,
        }
    }

    /// Where instances come from: a pool, where one is asked for. A pool whose
    /// slots are not told has two more than there are lanes.
    pub open spec fn allocation(&self) -> RuntimeAllocationMode {
        match self.pooling_slots {
            Some(slots) => RuntimeAllocationMode::Pooling { slots },
            None => if self.pooling {
                RuntimeAllocationMode::Pooling {
                    slots: if self.lanes + 2 > usize::MAX {
                        usize::MAX
                    } else {
                        (self.lanes + 2) as usize
                    },
                }
            } else {
                RuntimeAllocationMode::OnDemand
            },
        }
    }

    /// The controls of the runtime that is measured.
    pub fn runtime_config(&self) -> (config: PitRuntimeConfig)
        ensures
            config.compiled_cache_restore == self.restore_mode,
            config.allocation == self.allocation(),
            config.memory_init_cow == self.memory_init_cow,
            config.pre_resolved_imports == self.pre_resolved_imports,
    {
        let allocation = match self.pooling_slots {
            Some(slots) => RuntimeAllocationMode::Pooling { slots },
            None => if self.pooling {
                RuntimeAllocationMode::Pooling {
                    slots: if self.lanes > usize::MAX - 2 {
                        usize::MAX
                    } else {
                        self.lanes + 2
                    },
                }
            } else {
                RuntimeAllocationMode::OnDemand
            },
        };
        PitRuntimeConfig {
            compiled_cache_restore: self.restore_mode,
            allocation,
            memory_init_cow: self.memory_init_cow,
            pre_resolved_imports: self.pre_resolved_imports,
        }
    }

    /// How many cold trials are made: as many as samples, but ten at least and
    /// thirty at most.
    pub fn cold_trials(&self) -> (count: usize)
        ensures
            count == if self.samples < 10 {
                10
            } else if self.samples > 30 {
                30
            } else {
                self.samples
            },
    {
        if self.samples < 10 {
            10
        } else if self.samples > 30 {
            30
        } else {
            self.samples
        }
    }

    /// How many samples a burst takes: as many as are asked for, but four for
    /// each lane at least.
    pub fn burst_samples(&self) -> (count: usize)
        requires
            self.lanes * 4 <= usize::MAX,
        ensures
            count == if self.samples < self.lanes * 4 {
                self.lanes * 4
            } else {
                self.samples as int
            },
    {
        let least = self.lanes * 4;
        if self.samples < least {
            least
        } else {
            self.samples
        }
    }
}

/// What `--restore` sets, or why it is refused.
pub open spec fn restore_named(value: Option<Seq<char>>) -> Result<
    CompiledCacheRestoreMode,
    Seq<char>,
> {
    match value {
        None => Err("--restore requires bytes or file"@),
        Some(value) => if value == "bytes"@ {
            Ok(CompiledCacheRestoreMode::Bytes)
        } else if value == "file"@ || value == "file-backed"@ {
            Ok(CompiledCacheRestoreMode::FileBacked)
        } else {
            Err("unsupported --restore mode "@ + value)
        },
    }
}

/// Reads what `--restore` sets.
pub fn read_restore(value: Option<&str>) -> (mode: Result<CompiledCacheRestoreMode, Failure>)
    ensures
        match restore_named(
            match value {
                Some(value) => Some(value@),
                None => None,
            },
        ) {
            Ok(named) => mode == Ok::<CompiledCacheRestoreMode, Failure>(named),
            Err(problem) => mode matches Err(failure) && failure.says(problem),
        },
{
    match value {
        None => Err(Failure::new("--restore requires bytes or file")),
        Some(value) => if same(value, "bytes") {
            Ok(CompiledCacheRestoreMode::Bytes)
        } else if same(value, "file") || same(value, "file-backed") {
            Ok(CompiledCacheRestoreMode::FileBacked)
        } else {
            Err(Failure::of(concat2("unsupported --restore mode ", value)))
        },
    }
}

/// What `--cow` sets, or why it is refused.
pub open spec fn cow_named(value: Option<Seq<char>>) -> Result<bool, Seq<char>> {
    match value {
        None => Err("--cow requires on or off"@),
        Some(value) => if value == "on"@ {
            Ok(true)
        } else if value == "off"@ {
            Ok(false)
        } else {
            Err("unsupported --cow value "@ + value)
        },
    }
}

/// Reads what `--cow` sets.
pub fn read_cow(value: Option<&str>) -> (on: Result<bool, Failure>)
    ensures
        match cow_named(
            match value {
                Some(value) => Some(value@),
                None => None,
            },
        ) {
            Ok(named) => on == Ok::<bool, Failure>(named),
            Err(problem) => on matches Err(failure) && failure.says(problem),
        },
{
    match value {
        None => Err(Failure::new("--cow requires on or off")),
        Some(value) => if same(value, "on") {
            Ok(true)
        } else if same(value, "off") {
            Ok(false)
        } else {
            Err(Failure::of(concat2("unsupported --cow value ", value)))
        },
    }
}

/// A count behind an option, or why it is refused.
pub open spec fn count_named(option: Seq<char>, value: Option<Seq<char>>) -> Result<nat, Seq<char>> {
    match value {
        None => Err(option + " requires a value"@),
        Some(value) => match number::read_number(value, usize::MAX as nat) {
            Ok(n) => Ok(n),
            Err(problem) => Err(problem.spelled()),
        },
    }
}

/// Reads a count behind an option.
pub fn read_count(option: &str, value: Option<&str>) -> (count: Result<usize, Failure>)
    ensures
        match count_named(
            option@,
            match value {
                Some(value) => Some(value@),
                None => None,
            },
        ) {
            Ok(named) => count matches Ok(read) && read == named,
            Err(problem) => count matches Err(failure) && failure.says(problem),
        },
{
    match value {
        None => Err(Failure::of(concat2(option, " requires a value"))),
        Some(value) => match parse_number(value, usize::MAX as u64) {
            Ok(n) => Ok(n as usize),
            Err(problem) => Err(Failure::of(problem.message())),
        },
    }
}

/// One sample.
#[derive(Debug)]
pub struct Sample {
    pub total_ns: u128,
    pub guest_started_ns: u128,
    pub prepared_lookup_ns: u128,
    pub queue_ns: u128,
    pub scheduling_gap_ns: u128,
    pub guest_ns: u128,
    pub total_us: u128,
    pub guest_started_us: u128,
    pub prepared_lookup_us: u128,
    pub queue_us: u128,
    pub scheduling_gap_us: u128,
    pub guest_us: u128,
    pub burst_guest_started_ns: Option<u128>,
    pub burst_guest_started_us: Option<u128>,
    pub request_setup_ns: u128,
    pub wasi_setup_ns: u128,
    pub store_setup_ns: u128,
    pub instance_setup_ns: u128,
    pub guest_execution_ns: u128,
    pub error: Option<String>,
    pub success: bool,
}

/// A sample of an execution. Outside a burst there is no time since its start.
pub fn sample_from_result(total: Span, result: HttpDispatchResult) -> (sample: Sample)
    ensures
        sample.total_ns == total.nanos,
        sample.guest_started_ns == result.guest_started_after_request.nanos,
        sample.prepared_lookup_ns == result.prepared_lookup.nanos,
        sample.queue_ns == result.queued_for.nanos,
        sample.scheduling_gap_ns == result.scheduling_gap.nanos,
        sample.guest_ns == result.duration.nanos,
        sample.total_us == total.nanos / 1000,
        sample.guest_started_us == result.guest_started_after_request.nanos / 1000,
        sample.prepared_lookup_us == result.prepared_lookup.nanos / 1000,
        sample.queue_us == result.queued_for.nanos / 1000,
        sample.scheduling_gap_us == result.scheduling_gap.nanos / 1000,
        sample.guest_us == result.duration.nanos / 1000,
        sample.burst_guest_started_ns is None,
        sample.burst_guest_started_us is None,
        sample.request_setup_ns == result.runtime_timings.request_setup.nanos,
        sample.wasi_setup_ns == result.runtime_timings.wasi_setup.nanos,
        sample.store_setup_ns == result.runtime_timings.store_setup.nanos,
        sample.instance_setup_ns == result.runtime_timings.instance_setup.nanos,
        sample.guest_execution_ns == result.runtime_timings.guest_execution.nanos,
        sample.error == result.error,
        sample.success == (result.response is Some),
{
    Sample {
        total_ns: total.as_nanos(),
        guest_started_ns: result.guest_started_after_request.as_nanos(),
        prepared_lookup_ns: result.prepared_lookup.as_nanos(),
        queue_ns: result.queued_for.as_nanos(),
        scheduling_gap_ns: result.scheduling_gap.as_nanos(),
        guest_ns: result.duration.as_nanos(),
        total_us: total.as_micros(),
        guest_started_us: result.guest_started_after_request.as_micros(),
        prepared_lookup_us: result.prepared_lookup.as_micros(),
        queue_us: result.queued_for.as_micros(),
        scheduling_gap_us: result.scheduling_gap.as_micros(),
        guest_us: result.duration.as_micros(),
        burst_guest_started_ns: None,
        burst_guest_started_us: None,
        request_setup_ns: result.runtime_timings.request_setup.as_nanos(),
        wasi_setup_ns: result.runtime_timings.wasi_setup.as_nanos(),
        store_setup_ns: result.runtime_timings.store_setup.as_nanos(),
        instance_setup_ns: result.runtime_timings.instance_setup.as_nanos(),
        guest_execution_ns: result.runtime_timings.guest_execution.as_nanos(),
        success: result.response.is_some(),
        error: result.error,
    }
}

/// A sample of an execution that began so long after its burst did.
pub fn sample_in_burst(total: Span, offset: Span, result: HttpDispatchResult) -> (sample: Sample)
    requires
        offset.nanos + result.guest_started_after_request.nanos <= u128::MAX,
    ensures
        sample.burst_guest_started_ns == Some(
            (offset.nanos + result.guest_started_after_request.nanos) as u128,
        ),
        sample.burst_guest_started_us == Some(
            (offset.nanos / 1000 + result.guest_started_after_request.nanos / 1000) as u128,
        ),
        sample.total_ns == total.nanos,
        sample.guest_started_ns == result.guest_started_after_request.nanos,
        sample.prepared_lookup_ns == result.prepared_lookup.nanos,
        sample.queue_ns == result.queued_for.nanos,
        sample.scheduling_gap_ns == result.scheduling_gap.nanos,
        sample.guest_ns == result.duration.nanos,
        sample.total_us == total.nanos / 1000,
        sample.guest_started_us == result.guest_started_after_request.nanos / 1000,
        sample.prepared_lookup_us == result.prepared_lookup.nanos / 1000,
        sample.queue_us == result.queued_for.nanos / 1000,
        sample.scheduling_gap_us == result.scheduling_gap.nanos / 1000,
        sample.guest_us == result.duration.nanos / 1000,
        sample.request_setup_ns == result.runtime_timings.request_setup.nanos,
        sample.wasi_setup_ns == result.runtime_timings.wasi_setup.nanos,
        sample.store_setup_ns == result.runtime_timings.store_setup.nanos,
        sample.instance_setup_ns == result.runtime_timings.instance_setup.nanos,
        sample.guest_execution_ns == result.runtime_timings.guest_execution.nanos,
        sample.error == result.error,
        sample.success == (result.response is Some),
{
    let mut sample = sample_from_result(total, result);
    sample.burst_guest_started_ns = Some(offset.as_nanos() + sample.guest_started_ns);
    sample.burst_guest_started_us = Some(offset.as_micros() + sample.guest_started_us);
    sample
}

/// How an artifact was prepared, in nanoseconds.
#[derive(Debug)]
pub struct PreparationObservation {
    pub readiness: String,
    pub source: String,
    pub compile_ns: u128,
    pub restore_ns: u128,
    pub cache_publication_ns: u128,
    pub metadata_lookup_ns: u128,
    pub compile_fingerprint_ns: u128,
    pub artifact_digest_ns: u128,
    pub cache_file_read_ns: u128,
    pub cache_deserialize_ns: u128,
    pub http_linker_setup_ns: u128,
    pub linker_preparation_ns: u128,
    pub prepared_object_construction_ns: u128,
}

/// How an artifact was prepared, in nanoseconds.
pub fn preparation_observation(report: &PreparationReport) -> (observation: PreparationObservation)
    ensures
        observation.readiness@ == match report.readiness {
            ReadinessState::Cold => "Cold"@,
            ReadinessState::Warm => "Warm"@,
            ReadinessState::Hot => "Hot"@,
        },
        observation.source@ == match report.source {
            CompiledCacheSource::ColdCompiled => "ColdCompiled"@,
            CompiledCacheSource::WarmRestored => "WarmRestored"@,
        },
        observation.compile_ns == report.compile_duration.nanos,
        observation.restore_ns == report.restore_duration.nanos,
        observation.cache_publication_ns == report.cache_publication_duration.nanos,
        observation.metadata_lookup_ns == report.cache_metadata_lookup_duration.nanos,
        observation.compile_fingerprint_ns == report.compile_fingerprint_duration.nanos,
        observation.artifact_digest_ns == report.artifact_digest_duration.nanos,
        observation.cache_file_read_ns == report.cache_file_read_duration.nanos,
        observation.cache_deserialize_ns == report.cache_deserialize_duration.nanos,
        observation.http_linker_setup_ns == report.http_linker_setup_duration.nanos,
        observation.linker_preparation_ns == report.linker_preparation_duration.nanos,
        observation.prepared_object_construction_ns
            == report.prepared_object_construction_duration.nanos,
{
    PreparationObservation {
        readiness: match report.readiness {
            ReadinessState::Cold => "Cold".to_owned(),
            ReadinessState::Warm => "Warm".to_owned(),
            ReadinessState::Hot => "Hot".to_owned(),
        },
        source: match report.source {
            CompiledCacheSource::ColdCompiled => "ColdCompiled".to_owned(),
            CompiledCacheSource::WarmRestored => "WarmRestored".to_owned(),
        },
        compile_ns: report.compile_duration.as_nanos(),
        restore_ns: report.restore_duration.as_nanos(),
        cache_publication_ns: report.cache_publication_duration.as_nanos(),
        metadata_lookup_ns: report.cache_metadata_lookup_duration.as_nanos(),
        compile_fingerprint_ns: report.compile_fingerprint_duration.as_nanos(),
        artifact_digest_ns: report.artifact_digest_duration.as_nanos(),
        cache_file_read_ns: report.cache_file_read_duration.as_nanos(),
        cache_deserialize_ns: report.cache_deserialize_duration.as_nanos(),
        http_linker_setup_ns: report.http_linker_setup_duration.as_nanos(),
        linker_preparation_ns: report.linker_preparation_duration.as_nanos(),
        prepared_object_construction_ns: report.prepared_object_construction_duration.as_nanos(),
    }
}

/// Smaller values come first.
pub open spec fn smaller() -> spec_fn(u128, u128) -> bool {
    |a: u128, b: u128| a < b
}

/// The values of a list, the smallest first.
pub fn sort_values(values: Vec<u128>) -> (sorted: Vec<u128>)
    ensures
        sorted@ == order::in_order(values@, smaller()),
        sorted@.to_multiset() == values@.to_multiset(),
        sorted@.len() == values@.len(),
        forall|i: int, j: int|
            0 <= i < j < sorted@.len() ==> #[trigger] sorted@[i] <= #[trigger] sorted@[j],
{
    proof {
        order::lemma_in_order(values@, smaller());
    }
    let less = |a: &u128, b: &u128| -> (is: bool)
        ensures
            is == (*a < *b),
        { *a < *b };
    let sorted = sort(values, less, Ghost(smaller()));
    proof {
        assert forall|i: int, j: int| 0 <= i < j < sorted@.len() implies #[trigger] sorted@[i]
            <= #[trigger] sorted@[j] by {
            assert(!smaller()(sorted@[j], sorted@[i]));
        }
    }
    sorted
}

/// Where a percentile stands among so many values: the first that is not
/// smaller than so many of a hundred.
pub open spec fn percentile_index(count: int, percentile: int) -> int {
    let rank = (count * percentile + 99) / 100 - 1;
    if rank < 0 {
        0
    } else if rank > count - 1 {
        count - 1
    } else {
        rank
    }
}

/// A percentile of sorted values.
pub fn percentile(values: &Vec<u128>, hundredths: usize) -> (value: u128)
    requires
        values@.len() > 0,
        values@.len() * hundredths <= usize::MAX,
    ensures
        value == values@[percentile_index(values@.len() as int, hundredths as int)],
{
    let count = values.len();
    proof {
        assert(count * hundredths >= 0) by (nonlinear_arith)
            requires
                count >= 0,
                hundredths >= 0,
        ;
    }
    let product = count * hundredths;
    let rank = if product % 100 == 0 {
        product / 100
    } else {
        product / 100 + 1
    };
    let index = if rank == 0 {
        0
    } else {
        rank - 1
    };
    let index = if index > count - 1 {
        count - 1
    } else {
        index
    };
    values[index]
}

/// A higher percentile is not smaller.
pub proof fn law_percentiles_grow(count: int, low: int, high: int)
    requires
        count > 0,
        0 <= low <= high,
    ensures
        0 <= percentile_index(count, low) <= percentile_index(count, high) < count,
{
    assert(count * low <= count * high) by (nonlinear_arith)
        requires
            count > 0,
            low <= high,
    ;
}

/// What several values come to. Their mean and their spread are for those who
/// compute with fractions.
#[derive(Debug, Clone, Copy, PartialEq, Eq, Structural)]
pub struct Summary {
    pub count: usize,
    pub min_us: u128,
    pub p50_us: u128,
    pub p90_us: u128,
    pub p95_us: u128,
    pub p99_us: u128,
    pub max_us: u128,
}

/// What sorted values come to.
pub open spec fn summary_of(sorted: Seq<u128>) -> Summary {
    if sorted.len() == 0 {
        Summary { count: 0, min_us: 0, p50_us: 0, p90_us: 0, p95_us: 0, p99_us: 0, max_us: 0 }
    } else {
        Summary {
            count: sorted.len() as usize,
            min_us: sorted[0],
            p50_us: sorted[percentile_index(sorted.len() as int, 50)],
            p90_us: sorted[percentile_index(sorted.len() as int, 90)],
            p95_us: sorted[percentile_index(sorted.len() as int, 95)],
            p99_us: sorted[percentile_index(sorted.len() as int, 99)],
            max_us: sorted[sorted.len() - 1],
        }
    }
}

/// What several values come to. Of no values everything is zero.
pub fn summary(values: Vec<u128>) -> (told: Summary)
    requires
        values@.len() * 99 <= usize::MAX,
    ensures
        told == summary_of(order::in_order(values@, smaller())),
{
    let count = values.len();
    let sorted = sort_values(values);
    if count == 0 {
        return Summary {
            count: 0,
            min_us: 0,
            p50_us: 0,
            p90_us: 0,
            p95_us: 0,
            p99_us: 0,
            max_us: 0,
        };
    }
    Summary {
        count,
        min_us: sorted[0],
        p50_us: percentile(&sorted, 50),
        p90_us: percentile(&sorted, 90),
        p95_us: percentile(&sorted, 95),
        p99_us: percentile(&sorted, 99),
        max_us: sorted[count - 1],
    }
}

/// The figures of a summary are in order, from the smallest value to the
/// largest.
pub proof fn law_summaries_are_ordered(values: Seq<u128>)
    requires
        values.len() > 0,
    ensures
        ({
            let told = summary_of(order::in_order(values, smaller()));
            told.min_us <= told.p50_us <= told.p90_us <= told.p95_us <= told.p99_us
                <= told.max_us
        }),
{
    let sorted = order::in_order(values, smaller());
    order::lemma_in_order(values, smaller());
    let n = sorted.len() as int;
    law_percentiles_grow(n, 0, 50);
    law_percentiles_grow(n, 50, 90);
    law_percentiles_grow(n, 90, 95);
    law_percentiles_grow(n, 95, 99);
    assert forall|i: int, j: int| 0 <= i <= j < n implies #[trigger] sorted[i]
        <= #[trigger] sorted[j] by {
        if i < j {
            assert(!smaller()(sorted[j], sorted[i]));
        }
    }
}

/// The times since the start of its burst at which guests started.
pub open spec fn burst_starts(samples: Seq<Sample>) -> Seq<u128>
    decreases samples.len(),
{
    if samples.len() == 0 {
        Seq::empty()
    } else {
        let rest = burst_starts(samples.drop_last());
        match samples.last().burst_guest_started_ns {
            Some(start) => rest.push(start),
            None => rest,
        }
    }
}

/// When every lane had a guest in a burst, in nanoseconds since its start.
pub open spec fn filled_at(samples: Seq<Sample>, lanes: usize) -> Option<u128> {
    let starts = burst_starts(samples);
    if starts.len() >= lanes {
        Some(order::in_order(starts, smaller())[lanes - 1])
    } else {
        None
    }
}

/// How long it took until every lane had a guest, in nanoseconds: the start of
/// as many guests as there are lanes. With fewer guests that was never so.
pub fn grid_fill_time(samples: &Vec<Sample>, lanes: usize) -> (filled: Option<u128>)
    requires
        lanes > 0,
    ensures
        filled == filled_at(samples@, lanes),
{
    let count = samples.len();
    let mut starts: Vec<u128> = Vec::new();
    let mut i: usize = 0;
    proof {
        assert(samples@.take(0) =~= Seq::<Sample>::empty());
    }
    while i < count
        invariant
            i <= count,
            count == samples@.len(),
            starts@ == burst_starts(samples@.take(i as int)),
        decreases count - i,
    {
        proof {
            assert(samples@.take(i + 1).drop_last() =~= samples@.take(i as int));
        }
        if let Some(start) = samples[i].burst_guest_started_ns {
            starts.push(start);
        }
        i += 1;
    }
    proof {
        assert(samples@.take(count as int) =~= samples@);
    }
    let sorted = sort_values(starts);
    if sorted.len() >= lanes {
        Some(sorted[lanes - 1])
    } else {
        None
    }
}

/// What several samples come to.
#[derive(Debug)]
pub struct Scenario {
    pub metric: String,
    pub samples: Vec<Sample>,
    pub summary: Summary,
    pub total_summary: Summary,
    pub scheduling_gap_summary: Summary,
    pub grid_fill_time_ns: Option<u128>,
    pub grid_fill_time_us: Option<u128>,
}

/// When the guests of samples started, in microseconds.
pub open spec fn guest_starts(samples: Seq<Sample>) -> Seq<u128> {
    samples.map_values(|sample: Sample| sample.guest_started_us)
}

/// How long samples took, in microseconds.
pub open spec fn totals(samples: Seq<Sample>) -> Seq<u128> {
    samples.map_values(|sample: Sample| sample.total_us)
}

/// How long samples waited for a lane, in microseconds.
pub open spec fn gaps(samples: Seq<Sample>) -> Seq<u128> {
    samples.map_values(|sample: Sample| sample.scheduling_gap_us)
}

/// Whether a scenario tells what samples come to, under the name of a figure.
pub open spec fn comes_to(
    scenario: Scenario,
    samples: Seq<Sample>,
    metric: Seq<char>,
    filled: Option<u128>,
) -> bool {
    &&& scenario.metric@ == metric
    &&& scenario.samples@ == samples
    &&& scenario.summary == summary_of(order::in_order(guest_starts(samples), smaller()))
    &&& scenario.total_summary == summary_of(order::in_order(totals(samples), smaller()))
    &&& scenario.scheduling_gap_summary == summary_of(order::in_order(gaps(samples), smaller()))
    &&& scenario.grid_fill_time_ns == filled
    &&& scenario.grid_fill_time_us == match filled {
        Some(nanos) => Some((nanos / 1000) as u128),
        None => None,
    }
}

/// What samples come to, under the name of a figure.
pub fn scenario_with_metric(samples: Vec<Sample>, metric: &str, filled: Option<u128>) -> (scenario:
    Scenario)
    requires
        samples@.len() * 99 <= usize::MAX,
    ensures
        comes_to(scenario, samples@, metric@, filled),
{
    let count = samples.len();
    let mut started: Vec<u128> = Vec::new();
    let mut took: Vec<u128> = Vec::new();
    let mut waited: Vec<u128> = Vec::new();
    let mut i: usize = 0;
    while i < count
        invariant
            i <= count,
            count == samples@.len(),
            started@ == guest_starts(samples@).take(i as int),
            took@ == totals(samples@).take(i as int),
            waited@ == gaps(samples@).take(i as int),
        decreases count - i,
    {
        started.push(samples[i].guest_started_us);
        took.push(samples[i].total_us);
        waited.push(samples[i].scheduling_gap_us);
        proof {
            assert(started@ =~= guest_starts(samples@).take(i + 1));
            assert(took@ =~= totals(samples@).take(i + 1));
            assert(waited@ =~= gaps(samples@).take(i + 1));
        }
        i += 1;
    }
    proof {
        assert(started@ =~= guest_starts(samples@));
        assert(took@ =~= totals(samples@));
        assert(waited@ =~= gaps(samples@));
    }
    Scenario {
        metric: metric.to_owned(),
        summary: summary(started),
        total_summary: summary(took),
        scheduling_gap_summary: summary(waited),
        grid_fill_time_ns: filled,
        grid_fill_time_us: match filled {
            Some(nanos) => Some(nanos / 1000),
            None => None,
        },
        samples,
    }
}

/// What samples come to that were taken one after the other.
pub fn scenario(samples: Vec<Sample>) -> (scenario: Scenario)
    requires
        samples@.len() * 99 <= usize::MAX,
    ensures
        comes_to(scenario, samples@, "guest_started_us"@, None),
{
    scenario_with_metric(samples, "guest_started_us", None)
}

/// What samples come to of which the whole time counts.
pub fn scenario_total(samples: Vec<Sample>) -> (scenario: Scenario)
    requires
        samples@.len() * 99 <= usize::MAX,
    ensures
        comes_to(scenario, samples@, "total_us"@, None),
{
    scenario_with_metric(samples, "total_us", None)
}

/// What samples come to that were taken in bursts: besides, when every lane had
/// a guest.
pub fn scenario_burst(samples: Vec<Sample>, lanes: usize) -> (scenario: Scenario)
    requires
        samples@.len() * 99 <= usize::MAX,
        lanes > 0,
    ensures
        comes_to(scenario, samples@, "guest_started_us"@, filled_at(samples@, lanes)),
{
    let filled = grid_fill_time(&samples, lanes);
    scenario_with_metric(samples, "guest_started_us", filled)
}

/// The sum of several sizes.
pub open spec fn sum_of(sizes: Seq<usize>) -> int
    decreases sizes.len(),
{
    if sizes.len() == 0 {
        0
    } else {
        sum_of(sizes.drop_last()) + sizes.last()
    }
}

/// The batches in which so many samples are taken, so many at once at the most.
pub fn batches(count: usize, concurrency: usize) -> (sizes: Vec<usize>)
    requires
        concurrency > 0,
    ensures
        sum_of(sizes@) == count,
        forall|i: int| 0 <= i < sizes@.len() ==> 0 < #[trigger] sizes@[i] <= concurrency,
        forall|i: int| 0 <= i < sizes@.len() - 1 ==> #[trigger] sizes@[i] == concurrency,
{
    let mut sizes: Vec<usize> = Vec::new();
    let mut done: usize = 0;
    while done < count
        invariant
            done <= count,
            concurrency > 0,
            sum_of(sizes@) == done,
            forall|i: int| 0 <= i < sizes@.len() ==> 0 < #[trigger] sizes@[i] <= concurrency,
            forall|i: int| 0 <= i < sizes@.len() - 1 ==> #[trigger] sizes@[i] == concurrency,
            done < count ==> forall|i: int|
                0 <= i < sizes@.len() ==> #[trigger] sizes@[i] == concurrency,
        decreases count - done,
    {
        let left = count - done;
        let size = if left < concurrency {
            left
        } else {
            concurrency
        };
        proof {
            assert(sizes@.push(size).drop_last() =~= sizes@);
        }
        sizes.push(size);
        done = done + size;
    }
    sizes
}

/// The model of the processor that the host describes: what stands behind the
/// colon on the first line that speaks of it.
pub open spec fn processor_model(lines: Seq<Seq<char>>) -> Option<Seq<char>>
    decreases lines.len(),
{
    if lines.len() == 0 {
        None
    } else {
        match processor_model(lines.drop_last()) {
            Some(model) => Some(model),
            None => if text::includes_text(lines.last(), "model name"@) {
                match text::split_first(lines.last(), ':') {
                    Some((_, value)) => Some(text::trimmed(value)),
                    None => None,
                }
            } else {
                None
            },
        }
    }
}

proof fn lemma_model_kept(lines: Seq<Seq<char>>, n: int)
    requires
        0 <= n <= lines.len(),
        processor_model(lines.take(n)) is Some,
    ensures
        processor_model(lines) == processor_model(lines.take(n)),
    decreases lines.len(),
{
    if n < lines.len() {
        assert(lines.drop_last().take(n) =~= lines.take(n));
        lemma_model_kept(lines.drop_last(), n);
    } else {
        assert(lines.take(n) =~= lines);
    }
}

/// The model of the processor that the host describes.
pub fn cpu_model(contents: &str) -> (model: Option<String>)
    ensures
        text::optional_text(model) == processor_model(text::split_at_char(contents@, '\n')),
{
    let lines = split_char(contents, '\n');
    let ghost all = text::split_at_char(contents@, '\n');
    let count = lines.len();
    let mut i: usize = 0;
    proof {
        assert(all.take(0) =~= Seq::<Seq<char>>::empty());
    }
    while i < count
        invariant
            i <= count,
            count == lines@.len(),
            text::texts(lines@) == all,
            all == text::split_at_char(contents@, '\n'),
            processor_model(all.take(i as int)) is None,
        decreases count - i,
    {
        let line = lines[i].as_str();
        proof {
            assert(all[i as int] == line@);
            assert(all.take(i + 1).drop_last() =~= all.take(i as int));
            assert(all.take(i + 1).last() == line@);
        }
        if includes(line, "model name") {
            if let Some((_, value)) = split_once(line, ':') {
                proof {
                    lemma_model_kept(all, i + 1);
                }
                return Some(trim(value.as_str()));
            }
        }
        i += 1;
    }
    proof {
        assert(all.take(count as int) =~= all);
    }
    None
}

/// The number behind the name at the start of a line.
pub open spec fn figure_on(line: Seq<char>, name: Seq<char>) -> Option<nat> {
    let fields = text::words(line);
    if fields.len() >= 2 && fields[0] == name {
        match number::read_number(fields[1], u64::MAX as nat) {
            Ok(n) => Some(n),
            Err(_) => None,
        }
    } else {
        None
    }
}

/// Whether a line starts with a name.
pub open spec fn is_named(line: Seq<char>, name: Seq<char>) -> bool {
    text::words(line).len() > 0 && text::words(line)[0] == name
}

/// A line of figures: whether it starts with the name, and the number behind it.
fn read_figure(line: &str, name: &str) -> (read: (bool, Option<u64>))
    ensures
        read.0 == is_named(line@, name@),
        match figure_on(line@, name@) {
            Some(n) => read.1 matches Some(m) && m == n,
            None => read.1 is None,
        },
{
    let fields = split_words(line);
    proof {
        assert(forall|i: int|
            0 <= i < fields@.len() ==> text::texts(fields@)[i] == (#[trigger] fields@[i])@);
    }
    if fields.len() == 0 || !same(fields[0].as_str(), name) {
        return (false, None);
    }
    if fields.len() < 2 {
        return (true, None);
    }
    match parse_number(fields[1].as_str(), u64::MAX) {
        Ok(n) => (true, Some(n)),
        Err(_) => (true, None),
    }
}

/// The first figure of a name.
pub open spec fn first_figure(lines: Seq<Seq<char>>, name: Seq<char>) -> Option<nat>
    decreases lines.len(),
{
    if lines.len() == 0 {
        None
    } else {
        match first_figure(lines.drop_last(), name) {
            Some(n) => Some(n),
            None => figure_on(lines.last(), name),
        }
    }
}

proof fn lemma_figure_kept(lines: Seq<Seq<char>>, name: Seq<char>, n: int)
    requires
        0 <= n <= lines.len(),
        first_figure(lines.take(n), name) is Some,
    ensures
        first_figure(lines, name) == first_figure(lines.take(n), name),
    decreases lines.len(),
{
    if n < lines.len() {
        assert(lines.drop_last().take(n) =~= lines.take(n));
        lemma_figure_kept(lines.drop_last(), name, n);
    } else {
        assert(lines.take(n) =~= lines);
    }
}

/// The memory of the host in bytes, out of what it says in kibibytes.
pub fn memory_total(contents: &str) -> (bytes: Option<u64>)
    requires
        first_figure(text::split_at_char(contents@, '\n'), "MemTotal:"@) matches Some(n) ==> n
            * 1024 <= u64::MAX,
    ensures
        match first_figure(text::split_at_char(contents@, '\n'), "MemTotal:"@) {
            Some(n) => bytes matches Some(m) && m == n * 1024,
            None => bytes is None,
        },
{
    let lines = split_char(contents, '\n');
    let ghost all = text::split_at_char(contents@, '\n');
    let count = lines.len();
    let mut i: usize = 0;
    proof {
        assert(all.take(0) =~= Seq::<Seq<char>>::empty());
    }
    while i < count
        invariant
            i <= count,
            count == lines@.len(),
            text::texts(lines@) == all,
            all == text::split_at_char(contents@, '\n'),
            first_figure(all.take(i as int), "MemTotal:"@) is None,
            first_figure(all, "MemTotal:"@) matches Some(n) ==> n * 1024 <= u64::MAX,
        decreases count - i,
    {
        proof {
            assert(all[i as int] == lines@[i as int]@);
            assert(all.take(i + 1).drop_last() =~= all.take(i as int));
            assert(all.take(i + 1).last() == lines@[i as int]@);
        }
        let (_, figure) = read_figure(lines[i].as_str(), "MemTotal:");
        if let Some(n) = figure {
            proof {
                lemma_figure_kept(all, "MemTotal:"@, i + 1);
            }
            return Some(n * 1024);
        }
        i += 1;
    }
    proof {
        assert(all.take(count as int) =~= all);
    }
    None
}

/// How much memory a process uses, in bytes.
#[derive(Debug, Clone, Copy, PartialEq, Eq, Structural)]
pub struct MemoryObservation {
    pub rss_bytes: u64,
    pub virtual_bytes: u64,
}

/// The figure on the last line of a name.
pub open spec fn last_figure(lines: Seq<Seq<char>>, name: Seq<char>) -> Option<nat>
    decreases lines.len(),
{
    if lines.len() == 0 {
        None
    } else if is_named(lines.last(), name) {
        figure_on(lines.last(), name)
    } else {
        last_figure(lines.drop_last(), name)
    }
}

/// The figure on the last line of a name.
fn find_last_figure(contents: &str, name: &str) -> (figure: Option<u64>)
    ensures
        match last_figure(text::split_at_char(contents@, '\n'), name@) {
            Some(n) => figure matches Some(m) && m == n,
            None => figure is None,
        },
{
    let lines = split_char(contents, '\n');
    let ghost all = text::split_at_char(contents@, '\n');
    let count = lines.len();
    let mut figure: Option<u64> = None;
    let mut i: usize = 0;
    proof {
        assert(all.take(0) =~= Seq::<Seq<char>>::empty());
    }
    while i < count
        invariant
            i <= count,
            count == lines@.len(),
            text::texts(lines@) == all,
            all == text::split_at_char(contents@, '\n'),
            match last_figure(all.take(i as int), name@) {
                Some(n) => figure matches Some(m) && m == n,
                None => figure is None,
            },
        decreases count - i,
    {
        proof {
            assert(all[i as int] == lines@[i as int]@);
            assert(all.take(i + 1).drop_last() =~= all.take(i as int));
            assert(all.take(i + 1).last() == lines@[i as int]@);
        }
        let (named, read) = read_figure(lines[i].as_str(), name);
        if named {
            figure = read;
        }
        i += 1;
    }
    proof {
        assert(all.take(count as int) =~= all);
    }
    figure
}

/// How much memory a process uses, out of what the host says of it in kibibytes.
pub fn process_memory(contents: &str) -> (observed: Option<MemoryObservation>)
    requires
        last_figure(text::split_at_char(contents@, '\n'), "VmRSS:"@) matches Some(n) ==> n * 1024
            <= u64::MAX,
        last_figure(text::split_at_char(contents@, '\n'), "VmSize:"@) matches Some(n) ==> n * 1024
            <= u64::MAX,
    ensures
        match (
            last_figure(text::split_at_char(contents@, '\n'), "VmRSS:"@),
            last_figure(text::split_at_char(contents@, '\n'), "VmSize:"@),
        ) {
            (Some(rss), Some(size)) => observed matches Some(observed) && observed.rss_bytes == rss
                * 1024 && observed.virtual_bytes == size * 1024,
            _ => observed is None,
        },
{
    let rss = match find_last_figure(contents, "VmRSS:") {
        Some(n) => n,
        None => {
            return None;
        },
    };
    let size = match find_last_figure(contents, "VmSize:") {
        Some(n) => n,
        None => {
            return None;
        },
    };
    Some(MemoryObservation { rss_bytes: rss * 1024, virtual_bytes: size * 1024 })
}

/// A percentile is the value of the nearest rank: the first at or below which so
/// many hundredths of all the values lie.
pub proof fn law_percentiles_are_nearest_ranks(count: int, percentile: int)
    requires
        count > 0,
        0 < percentile <= 100,
    ensures
        ({
            let rank = percentile_index(count, percentile) + 1;
            &&& 1 <= rank <= count
            &&& 100 * rank >= count * percentile
            &&& 100 * (rank - 1) < count * percentile
        }),
{
    let share = count * percentile;
    assert(0 < share <= 100 * count) by (nonlinear_arith)
        requires
            share == count * percentile,
            count > 0,
            0 < percentile <= 100,
    ;
}

/// A summary tells of values that were measured: how many they are, that none is
/// below the least or above the largest, and that what stands for a share of them
/// is one of them.
pub proof fn law_summaries_tell_of_the_values(values: Vec<u128>, told: Summary)
    requires
        call_ensures(summary, (values,), told),
        0 < values@.len() <= usize::MAX,
    ensures
        told.count == values@.len(),
        forall|i: int|
            0 <= i < values@.len() ==> told.min_us <= (#[trigger] values@[i]) <= told.max_us,
        values@.contains(told.min_us),
        values@.contains(told.p50_us),
        values@.contains(told.p90_us),
        values@.contains(told.p95_us),
        values@.contains(told.p99_us),
        values@.contains(told.max_us),
        ({
            let sorted = order::in_order(values@, smaller());
            let count = sorted.len() as int;
            &&& sorted.to_multiset() == values@.to_multiset()
            &&& forall|i: int, j: int|
                0 <= i < j < count ==> #[trigger] sorted[i] <= #[trigger] sorted[j]
            &&& exists|k: int|
                0 <= k < count && told.p50_us == #[trigger] sorted[k] && 100 * (k + 1) >= 50 * count
                    && 100 * k < 50 * count
            &&& exists|k: int|
                0 <= k < count && told.p90_us == #[trigger] sorted[k] && 100 * (k + 1) >= 90 * count
                    && 100 * k < 90 * count
            &&& exists|k: int|
                0 <= k < count && told.p95_us == #[trigger] sorted[k] && 100 * (k + 1) >= 95 * count
                    && 100 * k < 95 * count
            &&& exists|k: int|
                0 <= k < count && told.p99_us == #[trigger] sorted[k] && 100 * (k + 1) >= 99 * count
                    && 100 * k < 99 * count
        }),
{
    broadcast use vstd::seq_lib::group_to_multiset_ensures;

    let sorted = order::in_order(values@, smaller());
    let count = sorted.len() as int;
    order::lemma_in_order(values@, smaller());
    assert forall|i: int, j: int| 0 <= i < j < count implies #[trigger] sorted[i]
        <= #[trigger] sorted[j] by {
        assert(!smaller()(sorted[j], sorted[i]));
    }
    assert forall|k: int| 0 <= k < count implies values@.contains(#[trigger] sorted[k]) by {
        assert(sorted.contains(sorted[k]));
        assert(sorted.to_multiset().count(sorted[k]) > 0);
        assert(values@.to_multiset().count(sorted[k]) > 0);
    }
    assert forall|i: int| 0 <= i < values@.len() implies told.min_us <= (#[trigger] values@[i])
        <= told.max_us by {
        assert(values@.contains(values@[i]));
        assert(values@.to_multiset().count(values@[i]) > 0);
        assert(sorted.to_multiset().count(values@[i]) > 0);
        assert(sorted.contains(values@[i]));
        let k = choose|k: int| 0 <= k < count && sorted[k] == values@[i];
        assert(sorted[0] <= sorted[k]);
        assert(sorted[k] <= sorted[count - 1]);
    }
    law_percentiles_are_nearest_ranks(count, 50);
    law_percentiles_are_nearest_ranks(count, 90);
    law_percentiles_are_nearest_ranks(count, 95);
    law_percentiles_are_nearest_ranks(count, 99);
    assert(told.p50_us == sorted[percentile_index(count, 50)]);
    assert(told.p90_us == sorted[percentile_index(count, 90)]);
    assert(told.p95_us == sorted[percentile_index(count, 95)]);
    assert(told.p99_us == sorted[percentile_index(count, 99)]);
    assert(told.min_us == sorted[0]);
    assert(told.max_us == sorted[count - 1]);
}

/// Only those samples of a burst have a start that say one, and they come in the
/// order of the samples.
pub proof fn law_starts_are_those_that_are_told(samples: Seq<Sample>, sample: Sample)
    ensures
        sample.burst_guest_started_ns matches Some(start) ==> burst_starts(samples.push(sample))
            == burst_starts(samples).push(start),
        sample.burst_guest_started_ns is None ==> burst_starts(samples.push(sample))
            == burst_starts(samples),
        burst_starts(Seq::<Sample>::empty()).len() == 0,
{
    assert(samples.push(sample).drop_last() =~= samples);
}

/// The lanes are filled where as many guests have started as there are lanes, at
/// the moment that the last of those that many starts first. Before it, fewer had
/// started.
pub proof fn law_lanes_are_filled_one_by_one(
    samples: Vec<Sample>,
    lanes: usize,
    filled: Option<u128>,
)
    requires
        lanes > 0,
        call_ensures(grid_fill_time, (&samples, lanes), filled),
    ensures
        filled is Some <==> burst_starts(samples@).len() >= lanes,
        filled matches Some(moment) ==> {
            let sorted = order::in_order(burst_starts(samples@), smaller());
            &&& burst_starts(samples@).contains(moment)
            &&& sorted.to_multiset() == burst_starts(samples@).to_multiset()
            &&& sorted.len() >= lanes
            &&& forall|i: int| 0 <= i < lanes ==> #[trigger] sorted[i] <= moment
            &&& forall|i: int| lanes <= i < sorted.len() ==> moment <= #[trigger] sorted[i]
        },
{
    broadcast use vstd::seq_lib::group_to_multiset_ensures;

    let starts = burst_starts(samples@);
    let sorted = order::in_order(starts, smaller());
    order::lemma_in_order(starts, smaller());
    if filled is Some {
        let at = lanes - 1;
        assert(sorted.contains(sorted[at]));
        assert(sorted.to_multiset().count(sorted[at]) > 0);
        assert(starts.to_multiset().count(sorted[at]) > 0);
        assert forall|i: int| 0 <= i < lanes implies #[trigger] sorted[i] <= sorted[at] by {
            if i < at {
                assert(!smaller()(sorted[at], sorted[i]));
            }
        }
        assert forall|i: int| lanes <= i < sorted.len() implies sorted[at]
            <= #[trigger] sorted[i] by {
            assert(!smaller()(sorted[i], sorted[at]));
        }
    }
}

/// A scenario summarises its own samples: the start of the guest, the whole time
/// and the gap in scheduling, each by itself.
pub proof fn law_scenarios_summarise_their_samples(
    samples: Vec<Sample>,
    scenario: Scenario,
    name: &str,
    filled: Option<u128>,
)
    requires
        call_ensures(scenario_with_metric, (samples, name, filled), scenario),
        0 < samples@.len() <= usize::MAX,
    ensures
        scenario.samples@ == samples@,
        scenario.metric@ == name@,
        scenario.summary.count == samples@.len(),
        scenario.total_summary.count == samples@.len(),
        scenario.scheduling_gap_summary.count == samples@.len(),
        scenario.grid_fill_time_ns == filled,
        scenario.grid_fill_time_us is Some <==> filled is Some,
        filled matches Some(nanos) ==> 1000 * scenario.grid_fill_time_us->0 <= nanos < 1000
            * scenario.grid_fill_time_us->0 + 1000,
        forall|i: int|
            0 <= i < samples@.len() ==> scenario.summary.min_us <= (
            #[trigger] samples@[i]).guest_started_us <= scenario.summary.max_us
                && scenario.total_summary.min_us <= samples@[i].total_us
                <= scenario.total_summary.max_us && scenario.scheduling_gap_summary.min_us
                <= samples@[i].scheduling_gap_us <= scenario.scheduling_gap_summary.max_us,
{
    lemma_bounds(guest_starts(samples@));
    lemma_bounds(totals(samples@));
    lemma_bounds(gaps(samples@));
    assert forall|i: int| 0 <= i < samples@.len() implies scenario.summary.min_us <= (
    #[trigger] samples@[i]).guest_started_us <= scenario.summary.max_us
        && scenario.total_summary.min_us <= samples@[i].total_us <= scenario.total_summary.max_us
        && scenario.scheduling_gap_summary.min_us <= samples@[i].scheduling_gap_us
        <= scenario.scheduling_gap_summary.max_us by {
        assert(guest_starts(samples@)[i] == samples@[i].guest_started_us);
        assert(totals(samples@)[i] == samples@[i].total_us);
        assert(gaps(samples@)[i] == samples@[i].scheduling_gap_us);
    }
}

proof fn lemma_bounds(values: Seq<u128>)
    requires
        0 < values.len() <= usize::MAX,
    ensures
        ({
            let told = summary_of(order::in_order(values, smaller()));
            &&& told.count == values.len()
            &&& forall|i: int|
                0 <= i < values.len() ==> told.min_us <= (#[trigger] values[i]) <= told.max_us
        }),
{
    broadcast use vstd::seq_lib::group_to_multiset_ensures;

    let sorted = order::in_order(values, smaller());
    let told = summary_of(sorted);
    order::lemma_in_order(values, smaller());
    assert forall|i: int| 0 <= i < values.len() implies told.min_us <= (#[trigger] values[i])
        <= told.max_us by {
        assert(values.contains(values[i]));
        assert(values.to_multiset().count(values[i]) > 0);
        assert(sorted.to_multiset().count(values[i]) > 0);
        assert(sorted.contains(values[i]));
        let k = choose|k: int| 0 <= k < sorted.len() && sorted[k] == values[i];
        if k > 0 {
            assert(!smaller()(sorted[k], sorted[0]));
        }
        if k < sorted.len() - 1 {
            assert(!smaller()(sorted[sorted.len() - 1], sorted[k]));
        }
    }
}

/// A way to restore is named by one of three words, and nothing else names one.
pub proof fn law_restore_modes_are_named(
    value: &str,
    mode: Result<CompiledCacheRestoreMode, Failure>,
    unnamed: Result<CompiledCacheRestoreMode, Failure>,
)
    requires
        call_ensures(read_restore, (Some(value),), mode),
        call_ensures(read_restore, (None::<&str>,), unnamed),
    ensures
        unnamed is Err,
        mode is Ok <==> value@ == "bytes"@ || value@ == "file"@ || value@ == "file-backed"@,
        mode is Ok ==> (mode->Ok_0 == CompiledCacheRestoreMode::Bytes <==> value@ == "bytes"@),
{
    reveal_strlit("bytes");
    reveal_strlit("file");
    reveal_strlit("file-backed");
    assert("bytes"@.len() == 5);
    assert("file"@.len() == 4);
    assert("file-backed"@.len() == 11);
}

/// Copying on write is switched by the words for on and off, and by nothing else.
pub proof fn law_switches_are_on_or_off(
    value: &str,
    on: Result<bool, Failure>,
    unnamed: Result<bool, Failure>,
)
    requires
        call_ensures(read_cow, (Some(value),), on),
        call_ensures(read_cow, (None::<&str>,), unnamed),
    ensures
        unnamed is Err,
        on is Ok <==> value@ == "on"@ || value@ == "off"@,
        on is Ok ==> (on->Ok_0 <==> value@ == "on"@),
{
    reveal_strlit("on");
    reveal_strlit("off");
    assert("on"@.len() == 2);
    assert("off"@.len() == 3);
}

/// A count is what its digits say, and a count that was written is read back.
pub proof fn law_counts_are_read_back(
    option: &str,
    value: &str,
    n: usize,
    count: Result<usize, Failure>,
    unnamed: Result<usize, Failure>,
)
    requires
        value@ == text::decimal(n as nat),
        call_ensures(read_count, (option, Some(value)), count),
        call_ensures(read_count, (option, None::<&str>), unnamed),
    ensures
        count is Ok && count->Ok_0 == n,
        unnamed is Err && unnamed->Err_0.says(option@ + " requires a value"@),
{
    number::law_decimals_are_read_back(n as nat, usize::MAX as nat);
}

/// Guests are pooled exactly where that was asked for, or where a number of slots
/// was given, which is then the number of slots; otherwise there are two more than
/// lanes, as far as that can be told.
pub proof fn law_pools_are_asked_for(options: BenchOptions)
    ensures
        options.allocation() is OnDemand <==> options.pooling_slots is None && !options.pooling,
        options.pooling_slots matches Some(slots) ==> options.allocation() == (
        RuntimeAllocationMode::Pooling { slots }),
        options.pooling_slots is None && options.pooling && options.lanes + 2 <= usize::MAX ==> (
        options.allocation() matches RuntimeAllocationMode::Pooling { slots } && slots
            == options.lanes + 2),
        options.pooling_slots is None && options.pooling && options.lanes + 2 > usize::MAX ==> (
        options.allocation() matches RuntimeAllocationMode::Pooling { slots } && slots
            == usize::MAX),
{
}

/// Requests are sent in as few batches as it takes: each is full but the last.
pub proof fn law_batches_are_full(count: usize, concurrency: usize, sizes: Vec<usize>)
    requires
        concurrency > 0,
        call_ensures(batches, (count, concurrency), sizes),
    ensures
        sizes@.len() == 0 <==> count == 0,
        sizes@.len() > 0 ==> count == (sizes@.len() - 1) * concurrency + sizes@.last()
            && 0 < sizes@.last() <= concurrency,
{
    lemma_full_batches(sizes@, concurrency as int);
    if sizes@.len() > 0 {
        assert(0 < sizes@[sizes@.len() - 1]);
    }
}

proof fn lemma_full_batches(sizes: Seq<usize>, concurrency: int)
    requires
        forall|i: int| 0 <= i < sizes.len() - 1 ==> #[trigger] sizes[i] == concurrency,
        forall|i: int| 0 <= i < sizes.len() ==> 0 < #[trigger] sizes[i],
    ensures
        sizes.len() == 0 ==> sum_of(sizes) == 0,
        sizes.len() > 0 ==> sum_of(sizes) == (sizes.len() - 1) * concurrency + sizes.last()
            && sum_of(sizes) > 0,
    decreases sizes.len(),
{
    if sizes.len() > 0 {
        let front = sizes.drop_last();
        assert forall|i: int| 0 <= i < front.len() - 1 implies #[trigger] front[i]
            == concurrency by {
            assert(front[i] == sizes[i]);
        }
        assert forall|i: int| 0 <= i < front.len() implies 0 < #[trigger] front[i] by {
            assert(front[i] == sizes[i]);
        }
        lemma_full_batches(front, concurrency);
        assert(0 < sizes[sizes.len() - 1]);
        if front.len() > 0 {
            assert(front.last() == sizes[sizes.len() - 2]);
            let n = front.len() as int;
            assert((n - 1) * concurrency + concurrency == n * concurrency) by (nonlinear_arith);
        } else {
            assert((sizes.len() - 1) * concurrency == 0) by (nonlinear_arith)
                requires
                    sizes.len() == 1,
            ;
        }
    }
}

/// The model of the processor stands behind the first colon of the first line that
/// speaks of a model name and has a colon, whatever the other lines say.
pub proof fn law_the_first_model_is_told(
    before: Seq<Seq<char>>,
    label: Seq<char>,
    value: Seq<char>,
    after: Seq<Seq<char>>,
)
    requires
        forall|i: int|
            0 <= i < before.len() ==> !text::includes_text(
                #[trigger] before[i],
                "model name"@,
            ) || !before[i].contains(':'),
        !label.contains(':'),
        text::includes_text(label.push(':') + value, "model name"@),
    ensures
        processor_model(before) is None,
        processor_model(before.push(label.push(':') + value) + after) == Some(text::trimmed(value)),
    decreases before.len() + after.len(),
{
    let line = label.push(':') + value;
    if before.len() > 0 {
        let front = before.drop_last();
        assert forall|i: int| 0 <= i < front.len() implies !text::includes_text(
            #[trigger] front[i],
            "model name"@,
        ) || !front[i].contains(':') by {
            assert(front[i] == before[i]);
        }
        law_the_first_model_is_told(front, label, value, Seq::<Seq<char>>::empty());
        let last = before[before.len() - 1];
        assert(!text::includes_text(last, "model name"@) || !last.contains(':'));
        text::law_texts_are_split_at_the_first(last, ':');
    }
    if after.len() == 0 {
        assert(before.push(line) + after =~= before.push(line));
        assert(before.push(line).drop_last() =~= before);
        text::law_split_parts_come_back(label, ':', value);
    } else {
        let shorter = after.drop_last();
        law_the_first_model_is_told(before, label, value, shorter);
        assert((before.push(line) + after).drop_last() =~= before.push(line) + shorter);
    }
}

/// A figure stands on a line as its second word, behind its name, and is the number
/// that was written there.
pub proof fn law_figures_stand_behind_their_names(line: Seq<char>, name: Seq<char>, n: nat)
    requires
        n <= u64::MAX,
    ensures
        text::words(line).len() >= 2 && text::words(line)[0] == name && text::words(line)[1]
            == text::decimal(n) ==> figure_on(line, name) == Some(n),
        figure_on(line, name) is Some ==> text::words(line).len() >= 2 && text::words(line)[0]
            == name,
        is_named(line, name) <==> text::words(line).len() >= 1 && text::words(line)[0] == name,
{
    number::law_decimals_are_read_back(n, u64::MAX as nat);
}

/// The first line that holds a figure of a name decides, and for what is told of a
/// process the last line of the name.
pub proof fn law_figures_are_found(
    before: Seq<Seq<char>>,
    line: Seq<char>,
    after: Seq<Seq<char>>,
    name: Seq<char>,
)
    ensures
        (forall|i: int| 0 <= i < before.len() ==> figure_on(#[trigger] before[i], name) is None)
            && figure_on(line, name) is Some ==> first_figure(before.push(line) + after, name)
            == figure_on(line, name),
        (forall|i: int| 0 <= i < before.len() ==> figure_on(#[trigger] before[i], name) is None)
            ==> first_figure(before, name) is None,
        (forall|i: int| 0 <= i < after.len() ==> !is_named(#[trigger] after[i], name)) && is_named(
            line,
            name,
        ) ==> last_figure(before.push(line) + after, name) == figure_on(line, name),
        (forall|i: int| 0 <= i < after.len() ==> !is_named(#[trigger] after[i], name))
            ==> last_figure(after, name) is None,
    decreases before.len() + after.len(),
{
    let whole = before.push(line) + after;
    if before.len() > 0 {
        let front = before.drop_last();
        law_figures_are_found(front, line, Seq::<Seq<char>>::empty(), name);
        if forall|i: int| 0 <= i < before.len() ==> figure_on(#[trigger] before[i], name) is None {
            assert forall|i: int| 0 <= i < front.len() implies figure_on(
                #[trigger] front[i],
                name,
            ) is None by {
                assert(front[i] == before[i]);
            }
            assert(figure_on(before[before.len() - 1], name) is None);
        }
    }
    if after.len() == 0 {
        assert(whole =~= before.push(line));
        assert(whole.drop_last() =~= before);
        assert(whole.last() == line);
    } else {
        let shorter = after.drop_last();
        law_figures_are_found(before, line, shorter, name);
        assert(whole.drop_last() =~= before.push(line) + shorter);
        assert(whole.last() == after.last());
        if forall|i: int| 0 <= i < after.len() ==> !is_named(#[trigger] after[i], name) {
            assert forall|i: int| 0 <= i < shorter.len() implies !is_named(
                #[trigger] shorter[i],
                name,
            ) by {
                assert(shorter[i] == after[i]);
            }
            assert(!is_named(after[after.len() - 1], name));
        }
    }
}

/// Cold starts are tried as often as samples are wanted, but not fewer than ten
/// times and not more than thirty; a burst has at least as many samples as wanted
/// and four for each lane.
pub proof fn law_trials_are_enough(options: BenchOptions, trials: usize, burst: usize)
    requires
        call_ensures(BenchOptions::cold_trials, (&options,), trials),
        call_ensures(BenchOptions::burst_samples, (&options,), burst),
    ensures
        10 <= trials <= 30,
        10 <= options.samples <= 30 ==> trials == options.samples,
        options.samples < 10 ==> trials == 10,
        options.samples > 30 ==> trials == 30,
        burst >= options.samples,
        burst >= 4 * options.lanes,
        burst == options.samples || burst == 4 * options.lanes,
{
}

/// A sample tells the times of its result in nanoseconds and in whole microseconds,
/// and that it succeeded exactly where there was a response. In a burst it also
/// tells when the guest started, counted from the start of the burst.
pub proof fn law_samples_tell_their_result(
    total: Span,
    offset: Span,
    result: HttpDispatchResult,
    sample: Sample,
    burst: Sample,
)
    requires
        offset.nanos + result.guest_started_after_request.nanos <= u128::MAX,
        call_ensures(sample_from_result, (total, result), sample),
        call_ensures(sample_in_burst, (total, offset, result), burst),
    ensures
        sample.success <==> result.response is Some,
        burst.success <==> result.response is Some,
        sample.error == result.error,
        burst.error == result.error,
        sample.total_ns == total.nanos,
        1000 * sample.total_us <= total.nanos < 1000 * sample.total_us + 1000,
        1000 * burst.total_us <= total.nanos < 1000 * burst.total_us + 1000,
        1000 * sample.guest_started_us <= result.guest_started_after_request.nanos < 1000
            * sample.guest_started_us + 1000,
        1000 * sample.scheduling_gap_us <= result.scheduling_gap.nanos < 1000
            * sample.scheduling_gap_us + 1000,
        1000 * sample.queue_us <= result.queued_for.nanos < 1000 * sample.queue_us + 1000,
        1000 * sample.guest_us <= result.duration.nanos < 1000 * sample.guest_us + 1000,
        1000 * sample.prepared_lookup_us <= result.prepared_lookup.nanos < 1000
            * sample.prepared_lookup_us + 1000,
        sample.burst_guest_started_ns is None,
        burst.burst_guest_started_ns is Some,
        burst.burst_guest_started_ns->0 == offset.nanos + burst.guest_started_ns,
{
}

/// Memory is told in bytes, where the host tells it in kibibytes; there is a figure
/// exactly where the host gives it, and of a process exactly where it gives both.
pub proof fn law_memory_is_told_in_bytes(
    contents: &str,
    bytes: Option<u64>,
    observed: Option<MemoryObservation>,
)
    requires
        call_ensures(memory_total, (contents,), bytes),
        call_ensures(process_memory, (contents,), observed),
    ensures
        ({
            let lines = text::split_at_char(contents@, '\n');
            let total = first_figure(lines, "MemTotal:"@);
            let resident = last_figure(lines, "VmRSS:"@);
            let whole = last_figure(lines, "VmSize:"@);
            &&& (bytes is Some <==> total is Some)
            &&& (bytes is Some ==> bytes->0 == 1024 * total->0)
            &&& (observed is Some <==> resident is Some && whole is Some)
            &&& (observed is Some ==> observed->0.rss_bytes == 1024 * resident->0
                && observed->0.virtual_bytes == 1024 * whole->0)
        }),
{
}

/// A preparation is observed by where the artifact came from and how long each step
/// took.
pub proof fn law_preparations_are_observed(
    report: PreparationReport,
    observation: PreparationObservation,
)
    requires
        call_ensures(preparation_observation, (&report,), observation),
    ensures
        observation.readiness@ == "Cold"@ <==> report.readiness is Cold,
        observation.readiness@ == "Warm"@ <==> report.readiness is Warm,
        observation.readiness@ == "Hot"@ <==> report.readiness is Hot,
        observation.source@ == "ColdCompiled"@ <==> report.source is ColdCompiled,
        observation.source@ == "WarmRestored"@ <==> report.source is WarmRestored,
        observation.compile_ns == report.compile_duration.nanos,
        observation.restore_ns == report.restore_duration.nanos,
        observation.cache_publication_ns == report.cache_publication_duration.nanos,
{
    reveal_strlit("Cold");
    reveal_strlit("Warm");
    reveal_strlit("Hot");
    reveal_strlit("ColdCompiled");
    reveal_strlit("WarmRestored");
    assert("Cold"@.len() == 4 && "Cold"@[0] == 'C');
    assert("Warm"@.len() == 4 && "Warm"@[0] == 'W');
    assert("Hot"@.len() == 3);
    assert("ColdCompiled"@[0] == 'C');
    assert("WarmRestored"@[0] == 'W');
}

} // verus!

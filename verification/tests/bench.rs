use pit_box::bench::{
    batches, cpu_model, grid_fill_time, memory_total, percentile, preparation_observation,
    process_memory, read_count, read_cow, read_restore, sample_from_result, sample_in_burst,
    scenario, scenario_burst, scenario_total, sort_values, summary, BenchOptions, MemoryObservation, Sample,
};
use pit_box::clock::Span;
use pit_box::garage::HttpDispatchResult;
use pit_box::http::HttpExecutionTimings;
use pit_box::number::{parse_number, NumberProblem};
use pit_box::preparation::PreparationReport;
use pit_box::runtime::{CompiledCacheRestoreMode, RuntimeAllocationMode};
use pit_box::scheduler::{ExecutionId, LaneId};

fn result(started: u64) -> HttpDispatchResult {
    HttpDispatchResult {
        execution_id: ExecutionId(0),
        lane_id: LaneId(0),
        response: None,
        error: Some("no".to_owned()),
        prepared_lookup: Span::from_nanos(1_500),
        queued_for: Span::from_nanos(2_500),
        scheduling_gap: Span::from_nanos(3_500),
        guest_started_after_request: Span::from_nanos(started),
        duration: Span::from_nanos(5_500),
        runtime_timings: HttpExecutionTimings {
            request_setup: Span::from_nanos(1),
            wasi_setup: Span::from_nanos(2),
            store_setup: Span::from_nanos(3),
            instance_setup: Span::from_nanos(4),
            guest_execution: Span::from_nanos(5),
        },
    }
}

fn started(offset: u64, after: u64) -> Sample {
    sample_in_burst(Span::from_millis(1), Span::from_nanos(offset), result(after))
}

#[test]
fn samples_keep_the_figures() {
    let sample = sample_from_result(Span::from_nanos(9_999), result(4_500));
    assert_eq!(sample.total_ns, 9_999);
    assert_eq!(sample.total_us, 9);
    assert_eq!(sample.guest_started_us, 4);
    assert_eq!(sample.queue_us, 2);
    assert_eq!(sample.scheduling_gap_us, 3);
    assert_eq!(sample.guest_us, 5);
    assert_eq!(sample.prepared_lookup_us, 1);
    assert_eq!(sample.instance_setup_ns, 4);
    assert!(!sample.success);
    assert_eq!(sample.error.as_deref(), Some("no"));
    assert_eq!(sample.burst_guest_started_ns, None);
    let sample = started(1_700, 1_600);
    assert_eq!((sample.total_us, sample.queue_us, sample.scheduling_gap_us), (1_000, 2, 3));
    assert_eq!((sample.guest_us, sample.prepared_lookup_us, sample.instance_setup_ns), (5, 1, 4));
    assert_eq!(sample.burst_guest_started_ns, Some(3_300));
    assert_eq!(sample.burst_guest_started_us, Some(2));
}

#[test]
fn the_grid_is_full_when_every_lane_has_a_guest() {
    let samples = vec![started(30, 0), started(10, 0), started(20, 0)];
    assert_eq!(grid_fill_time(&samples, 2), Some(20));
    assert_eq!(grid_fill_time(&samples, 3), Some(30));
    assert_eq!(grid_fill_time(&samples, 4), None);
    let plain = vec![sample_from_result(Span::zero(), result(1))];
    assert_eq!(grid_fill_time(&plain, 1), None);
}

#[test]
fn summaries_are_in_order() {
    let values: Vec<u128> = (1..=200).rev().collect();
    let told = summary(values);
    assert_eq!(told.count, 200);
    assert_eq!(told.min_us, 1);
    assert_eq!(told.p50_us, 100);
    assert_eq!(told.p90_us, 180);
    assert_eq!(told.p95_us, 190);
    assert_eq!(told.p99_us, 198);
    assert_eq!(told.max_us, 200);
    assert_eq!(summary(vec![]).count, 0);
    assert_eq!(summary(vec![]).max_us, 0);
    assert_eq!(sort_values(vec![3, 1, 2, 1]), vec![1, 1, 2, 3]);
    assert_eq!(percentile(&vec![5], 99), 5);
    assert_eq!(percentile(&vec![5, 6, 7], 50), 6);
    assert_eq!(percentile(&vec![5, 6, 7], 0), 5);
}

#[test]
fn batches_cover_everything() {
    assert_eq!(batches(10, 4), vec![4, 4, 2]);
    assert_eq!(batches(8, 4), vec![4, 4]);
    assert_eq!(batches(0, 4), Vec::<usize>::new());
}

#[test]
fn options_are_read() {
    let mut options = BenchOptions::new();
    assert_eq!(options.lanes, 8);
    assert_eq!(options.samples, 100);
    assert_eq!(options.cold_trials(), 30);
    assert_eq!(options.burst_samples(), 100);
    assert_eq!(options.runtime_config().allocation, RuntimeAllocationMode::OnDemand);
    options.pooling = true;
    assert_eq!(
        options.runtime_config().allocation,
        RuntimeAllocationMode::Pooling { slots: 10 }
    );
    options.pooling_slots = Some(3);
    options.samples = 3;
    assert_eq!(
        options.runtime_config().allocation,
        RuntimeAllocationMode::Pooling { slots: 3 }
    );
    assert_eq!(options.cold_trials(), 10);
    assert_eq!(options.burst_samples(), 32);
    options.lanes = usize::MAX;
    options.pooling_slots = None;
    assert_eq!(
        options.runtime_config().allocation,
        RuntimeAllocationMode::Pooling { slots: usize::MAX }
    );
    assert_eq!(read_restore(Some("bytes")).ok(), Some(CompiledCacheRestoreMode::Bytes));
    assert_eq!(read_restore(Some("file")).ok(), Some(CompiledCacheRestoreMode::FileBacked));
    assert_eq!(
        read_restore(Some("tape")).expect_err("unknown").message,
        "unsupported --restore mode tape"
    );
    assert_eq!(read_restore(None).expect_err("none").message, "--restore requires bytes or file");
    assert_eq!(read_cow(Some("on")).ok(), Some(true));
    assert_eq!(read_cow(Some("off")).ok(), Some(false));
    assert_eq!(read_cow(Some("x")).expect_err("unknown").message, "unsupported --cow value x");
    assert_eq!(read_cow(None).expect_err("none").message, "--cow requires on or off");
    assert_eq!(read_count("--lanes", Some("12")).ok(), Some(12));
    assert_eq!(
        read_count("--lanes", None).expect_err("none").message,
        "--lanes requires a value"
    );
    assert_eq!(
        read_count("--lanes", Some("x")).expect_err("no number").message,
        "invalid digit found in string"
    );
}

#[test]
fn numbers_are_read_as_they_are_written() {
    for (written, most) in [
        ("0", 0u64),
        ("+7", 9),
        ("0042", 100),
        ("18446744073709551615", u64::MAX),
        ("18446744073709551616", u64::MAX),
        ("", 9),
        ("+", 9),
        ("-", 9),
        ("-1", 9),
        ("1 ", 9),
        ("++1", 9),
        ("12", 11),
    ] {
        let ours = parse_number(written, most).map_err(|problem| problem.message());
        let std = match written.parse::<u64>() {
            Ok(n) if n > most => Err(NumberProblem::TooLarge.message()),
            Ok(n) => Ok(n),
            Err(error) => Err(error.to_string()),
        };
        assert_eq!(ours, std);
    }
}

#[test]
fn hosts_describe_themselves() {
    let info = "processor\t: 0\nmodel name without\nmodel name\t: Big CPU \nmodel name\t: Other\n";
    assert_eq!(cpu_model(info).as_deref(), Some("Big CPU"));
    assert_eq!(cpu_model("none"), None);
    assert_eq!(memory_total("MemFree: 1 kB\nMemTotal:   12 kB\n"), Some(12_288));
    assert_eq!(memory_total("MemTotal: x\nMemTotal: 3"), Some(3_072));
    assert_eq!(memory_total(""), None);
    let status = "Name:\tx\nVmSize:\t     100 kB\nVmRSS:\t      40 kB\n";
    assert_eq!(
        process_memory(status),
        Some(MemoryObservation { rss_bytes: 40_960, virtual_bytes: 102_400 })
    );
    assert_eq!(process_memory("VmSize: 1 kB"), None);
    assert_eq!(process_memory("VmRSS: 1\nVmSize: 2\nVmRSS: x"), None);
}

#[test]
fn preparations_are_observed() {
    let observation = preparation_observation(&PreparationReport {
        compile_duration: Span::from_nanos(12),
        ..PreparationReport::default()
    });
    assert_eq!(observation.readiness, "Cold");
    assert_eq!(observation.source, "ColdCompiled");
    assert_eq!(observation.compile_ns, 12);
    assert_eq!(observation.restore_ns, 0);
}

#[test]
fn scenarios_tell_what_samples_come_to() {
    let samples = || vec![started(3_000, 4_500), started(1_000, 2_500)];
    let told = scenario_burst(samples(), 2);
    assert_eq!(told.metric, "guest_started_us");
    assert_eq!(told.grid_fill_time_ns, Some(7_500));
    assert_eq!(told.grid_fill_time_us, Some(7));
    assert_eq!((told.summary.min_us, told.summary.max_us), (2, 4));
    assert_eq!(told.total_summary.max_us, 1_000);
    assert_eq!(told.scheduling_gap_summary.p50_us, 3);
    assert_eq!(told.samples.len(), 2);
    assert_eq!(scenario_burst(samples(), 3).grid_fill_time_us, None);
    let told = scenario_total(samples());
    assert_eq!(told.metric, "total_us");
    assert_eq!((told.summary.min_us, told.summary.max_us), (2, 4));
    assert_eq!(told.grid_fill_time_ns, None);
    assert_eq!(scenario(vec![]).summary.count, 0);
    assert_eq!(scenario(samples()).metric, "guest_started_us");
}

use pit_box::clock::Span;
use pit_box::lanes::{InTurn, LaneHost, LaneWorker};
use pit_box::scheduler::{
    pooled_result, ExecutionEvent, ExecutionId, LaneId, LaneState, PitScheduler, RunState, SchedulerError,
    SchedulerRun,
};
use std::sync::atomic::{AtomicUsize, Ordering};
use std::sync::{Arc, Condvar, Mutex};
use std::time::{Duration, SystemTime};

/// A thread for each lane.
struct Threads;

impl LaneHost for Threads {
    fn run_lanes<T, F, C>(&self, workers: Vec<LaneWorker<T, F, C>>)
    where
        T: Send + Sync + 'static,
        F: Fn(ExecutionId, LaneId) -> Result<T, String> + Send + Sync + 'static,
        C: Fn(&T) -> Option<String> + Send + Sync + 'static,
    {
        let host = tokio::runtime::Builder::new_multi_thread()
            .worker_threads(1)
            .build()
            .expect("test host should start");
        let served: Vec<_> = workers
            .into_iter()
            .map(|worker| host.spawn_blocking(move || worker.serve()))
            .collect();
        for lane in served {
            host.block_on(lane).expect("lanes should not panic");
        }
    }
}

/// Blocks the calling thread.
fn sleep(time: Duration) {
    let gate = Mutex::new(());
    let guard = gate.lock().expect("unpoisoned");
    let _ = Condvar::new().wait_timeout(guard, time).expect("unpoisoned");
}

#[test]
fn detects_at_least_one_lane() {
    assert!(PitScheduler::local(None).lane_count() >= 1);
    assert_eq!(PitScheduler::local(Some(6)).lane_count(), 6);
}

#[test]
fn rejects_invalid_counts() {
    assert!(PitScheduler::new(0).is_err());
    assert!(PitScheduler::new(1)
        .expect("one lane is valid")
        .run_many::<(), _, _>(0, |_, _| Ok(()), &Threads)
        .is_err());
}

#[test]
fn completes_requested_task_count_and_emits_queue_events() {
    let mut scheduler = PitScheduler::new(2).expect("two lanes are valid");
    let run = scheduler
        .run_many_detailed(25, |execution_id, _| Ok(execution_id), &Threads)
        .expect("jobs should complete");
    assert_eq!(run.results.len(), 25);
    assert_eq!(run.snapshot.completed, 25);
    assert_eq!(run.snapshot.failed, 0);
    assert_eq!(run.snapshot.queued, 0);
    assert_eq!(run.snapshot.running, 0);
    assert!(
        run.events
            .iter()
            .filter(|event| matches!(event, ExecutionEvent::Queued { .. }))
            .count()
            == 25
    );
    assert!(run
        .snapshot
        .lanes
        .iter()
        .all(|state| *state == LaneState::Free));
}

#[test]
fn failure_releases_lane_and_allows_queued_work_to_finish() {
    let mut scheduler = PitScheduler::new(2).expect("two lanes are valid");
    let run = scheduler
        .run_many_detailed(
            12,
            |execution_id, _| {
                if execution_id == ExecutionId(0) {
                    Err("intentional failure".to_owned())
                } else {
                    Ok(())
                }
            },
            &Threads,
        )
        .expect("scheduler should return failed results");

    assert_eq!(run.results.len(), 12);
    assert_eq!(run.snapshot.completed, 11);
    assert_eq!(run.snapshot.failed, 1);
    assert_eq!(run.snapshot.running, 0);
    assert!(run
        .snapshot
        .lanes
        .iter()
        .all(|state| *state == LaneState::Free));
    assert!(run.events.iter().any(|event| matches!(
        event,
        ExecutionEvent::Failed { error, .. } if error.contains("intentional failure")
    )));
}

#[test]
fn execution_ids_are_monotonic_across_runs() {
    let mut scheduler = PitScheduler::new(1).expect("one lane is valid");
    let first = scheduler
        .run_many(1, |execution_id, _| Ok(execution_id), &Threads)
        .expect("first run should complete");
    let second = scheduler
        .run_many(1, |execution_id, _| Ok(execution_id), &Threads)
        .expect("second run should complete");
    assert!(second[0].report.execution_id > first[0].report.execution_id);
}

#[test]
fn errors_say_what_is_missing() {
    assert_eq!(
        SchedulerError::NoLanes.message(),
        "execution lane count must be greater than zero"
    );
    assert_eq!(
        SchedulerError::NoExecutions.message(),
        "execution count must be greater than zero"
    );
    let mut scheduler = PitScheduler::new(1).expect("one lane is valid");
    let refused = scheduler.run_many_detailed::<(), _, _>(0, |_, _| Ok(()), &InTurn);
    assert!(matches!(refused, Err(SchedulerError::NoExecutions)));
}

#[test]
fn identifiers_are_shown_to_people() {
    assert_eq!(ExecutionId(0).label(), "0001");
    assert_eq!(ExecutionId(9_998).label(), "9999");
    assert_eq!(ExecutionId(12_344).label(), "12345");
    assert_eq!(LaneId(0).label(), "0");
    assert_eq!(LaneId(17).label(), "17");
}

#[test]
fn lanes_interleave_and_results_come_out_in_order() {
    let mut state: RunState<&str> = RunState::new(3, 40, 4);
    let wait = Span::from_millis(1);
    let took = Span::from_millis(2);
    let now = SystemTime::now();
    assert_eq!(state.start(LaneId(2), wait), Some(ExecutionId(40)));
    assert_eq!(state.start(LaneId(0), wait), Some(ExecutionId(41)));
    assert_eq!(state.start(LaneId(1), wait), Some(ExecutionId(42)));
    assert_eq!(state.snapshot().running, 3);
    assert_eq!(state.snapshot().queued, 1);
    state.finish(LaneId(1), now, took, Ok("third"), None);
    state.finish(LaneId(2), now, took, Err("broken".to_owned()), None);
    assert_eq!(state.start(LaneId(2), wait), Some(ExecutionId(43)));
    assert_eq!(state.start(LaneId(1), wait), None);
    state.finish(LaneId(2), now, took, Ok("fourth"), Some("refused".to_owned()));
    state.finish(LaneId(0), now, took, Ok("second"), None);
    let run = state.into_run();
    let ids: Vec<u64> = run.results.iter().map(|r| r.report.execution_id.0).collect();
    assert_eq!(ids, vec![40, 41, 42, 43]);
    let values: Vec<Option<&str>> = run.results.iter().map(|r| r.value).collect();
    assert_eq!(values, vec![None, Some("second"), Some("third"), Some("fourth")]);
    assert_eq!(run.results[3].report.error.as_deref(), Some("refused"));
    assert_eq!(run.snapshot.completed, 2);
    assert_eq!(run.snapshot.failed, 2);
    assert_eq!(run.snapshot.peak_active, 3);
    assert_eq!(run.events.len(), 12);
}

#[test]
fn a_classified_value_is_kept() {
    let mut scheduler = PitScheduler::new(2).expect("two lanes are valid");
    let run = scheduler
        .run_many_classified(
            4,
            |execution_id, _| Ok(execution_id.0),
            |value: &u64| if *value == 2 { Some("two".to_owned()) } else { None },
            &InTurn,
        )
        .expect("jobs should complete");
    assert_eq!(run.results[2].value, Some(2));
    assert!(!run.results[2].report.success);
    assert_eq!(run.results[2].report.error.as_deref(), Some("two"));
    assert_eq!(run.snapshot.completed, 3);
    assert_eq!(run.snapshot.peak_active, 1);
}

#[test]
fn the_pool_hands_out_the_first_free_lane() {
    let mut scheduler = PitScheduler::new(2).expect("two lanes are valid");
    assert_eq!(scheduler.request_lane(), ExecutionId(0));
    assert_eq!(scheduler.request_lane(), ExecutionId(1));
    assert_eq!(scheduler.request_lane(), ExecutionId(2));
    assert_eq!(scheduler.shared_waiting(), 3);
    assert_eq!(scheduler.assign_lane(), Some(LaneId(0)));
    assert_eq!(scheduler.assign_lane(), Some(LaneId(1)));
    assert_eq!(scheduler.assign_lane(), None);
    assert_eq!(scheduler.shared_active(), 2);
    assert_eq!(scheduler.shared_snapshot().queued, 1);
    scheduler.release_lane(LaneId(0));
    assert_eq!(
        scheduler.shared_snapshot().lanes,
        vec![
            LaneState::Free,
            LaneState::Running { execution_id: ExecutionId(0) }
        ]
    );
    assert_eq!(scheduler.assign_lane(), Some(LaneId(0)));
    assert_eq!(scheduler.shared_peak_active(), 2);
}

#[test]
fn one_task_uses_the_pool_and_leaves_it_free() {
    let mut scheduler = PitScheduler::new(3).expect("three lanes are valid");
    let result = scheduler
        .run_one(|execution_id, lane| Ok::<_, String>((execution_id, lane)))
        .expect("one task always runs");
    assert_eq!(result.value, Some((ExecutionId(0), LaneId(0))));
    assert_eq!(result.report.scheduling_gap, Span::zero());
    assert!(result.report.success);
    let failed = scheduler
        .run_one(|_, _| Err::<(), String>("no".to_owned()))
        .expect("one task always runs");
    assert_eq!(failed.report.error.as_deref(), Some("no"));
    assert_eq!(failed.report.execution_id, ExecutionId(1));
    assert_eq!(scheduler.shared_active(), 0);
    assert_eq!(scheduler.shared_peak_active(), 1);
}

#[test]
fn busy_time_adds_up_and_capacity_is_per_lane() {
    let mut scheduler = PitScheduler::new(4).expect("four lanes are valid");
    scheduler.add_busy(Span::from_millis(3));
    scheduler.add_busy(Span::from_nanos(5));
    assert_eq!(scheduler.busy_time().as_nanos(), 3_000_005);
    assert_eq!(scheduler.lane_capacity(Span::from_nanos(10)), 40);
    scheduler.add_busy(Span { nanos: u128::MAX });
    assert_eq!(scheduler.busy_time().as_nanos(), 3_000_004);
    assert_eq!(scheduler.lane_capacity(Span { nanos: u128::MAX }), u128::MAX);
    let ids: Vec<usize> = scheduler.lanes().iter().map(|lane| lane.id.0).collect();
    assert_eq!(ids, vec![0, 1, 2, 3]);
}

#[test]
fn never_exceeds_lane_count_and_reuses_lanes() {
    let mut scheduler = PitScheduler::new(3).expect("three lanes are valid");
    let active = Arc::new(AtomicUsize::new(0));
    let peak = Arc::new(AtomicUsize::new(0));
    let active_for_task = Arc::clone(&active);
    let peak_for_task = Arc::clone(&peak);
    let run = scheduler
        .run_many_detailed(
            18,
            move |_, _| {
                let current = active_for_task.fetch_add(1, Ordering::SeqCst) + 1;
                peak_for_task.fetch_max(current, Ordering::SeqCst);
                sleep(Duration::from_millis(5));
                active_for_task.fetch_sub(1, Ordering::SeqCst);
                Ok(())
            },
            &Threads,
        )
        .expect("jobs should complete");

    assert_eq!(run.results.len(), 18);
    assert!(peak.load(Ordering::SeqCst) <= scheduler.lane_count());
    assert_eq!(peak.load(Ordering::SeqCst), scheduler.lane_count());
    assert_eq!(run.snapshot.running, 0);
    assert!(run.snapshot.lanes.iter().all(|state| *state == LaneState::Free));
    assert_eq!(run.snapshot.peak_active, 3);
}

/// Checks the log of a batch whose identifiers begin at `first`.
fn check_log(run: &SchedulerRun<()>, first: u64) {
    let count = run.results.len();
    assert_eq!(run.events.len(), 3 * count);
    for (i, event) in run.events[..count].iter().enumerate() {
        let queued = ExecutionId(first + i as u64);
        assert!(
            matches!(event, ExecutionEvent::Queued { execution_id } if *execution_id == queued)
        );
    }
    let mut lanes: Vec<Option<ExecutionId>> = vec![None; run.snapshot.lane_count];
    for event in &run.events[count..] {
        let report = |id: &ExecutionId| &run.results[(id.0 - first) as usize].report;
        match event {
            ExecutionEvent::Queued { .. } => panic!("queued twice"),
            ExecutionEvent::Started { execution_id, lane_id, queued_for } => {
                assert_eq!(lanes[lane_id.0].replace(*execution_id), None);
                assert_eq!(report(execution_id).lane_id, *lane_id);
                assert_eq!(report(execution_id).queued_for, *queued_for);
            }
            ExecutionEvent::Completed { execution_id, lane_id, duration } => {
                assert_eq!(lanes[lane_id.0].take(), Some(*execution_id));
                assert!(report(execution_id).success);
                assert_eq!(report(execution_id).duration, *duration);
            }
            ExecutionEvent::Failed { execution_id, lane_id, duration, error } => {
                assert_eq!(lanes[lane_id.0].take(), Some(*execution_id));
                assert_eq!(report(execution_id).duration, *duration);
                assert_eq!(report(execution_id).error.as_ref(), Some(error));
            }
        }
    }
    assert!(lanes.iter().all(|lane| lane.is_none()));
}

fn every_fifth_fails(execution_id: ExecutionId, _: LaneId) -> Result<(), String> {
    sleep(Duration::from_millis(execution_id.0 % 3));
    if execution_id.0 % 5 == 0 {
        Err(execution_id.label())
    } else {
        Ok(())
    }
}

#[test]
fn events_tell_what_every_lane_did() {
    let mut scheduler = PitScheduler::new(3).expect("three lanes are valid");
    let run = scheduler.run_many_detailed(20, every_fifth_fails, &Threads).expect("jobs run");
    check_log(&run, 0);
    assert_eq!(run.snapshot.failed, 4);
    assert!(run.results.iter().all(|r| r.report.scheduling_gap == r.report.queued_for));
    let run = scheduler.run_many_detailed(7, every_fifth_fails, &InTurn).expect("jobs run");
    check_log(&run, 20);
    assert_eq!(run.snapshot.peak_active, 1);
}

/// A host that serves only some of the lanes, or none.
struct Lazy(usize);

impl LaneHost for Lazy {
    fn run_lanes<T, F, C>(&self, workers: Vec<LaneWorker<T, F, C>>)
    where
        T: Send + Sync + 'static,
        F: Fn(ExecutionId, LaneId) -> Result<T, String> + Send + Sync + 'static,
        C: Fn(&T) -> Option<String> + Send + Sync + 'static,
    {
        for worker in workers.into_iter().take(self.0) {
            assert!(worker.lane().0 < self.0);
            worker.serve();
        }
    }
}

#[test]
fn what_a_host_leaves_is_done_all_the_same() {
    for served in 0..3 {
        let mut scheduler = PitScheduler::new(2).expect("two lanes are valid");
        let run = scheduler.run_many_detailed(6, every_fifth_fails, &Lazy(served)).expect("run");
        check_log(&run, 0);
        assert_eq!(run.snapshot.completed, 4);
    }
}

/// A host that fails in the middle of its first execution.
#[test]
fn an_execution_that_its_lane_has_left_is_run_again() {
    struct Leaving;
    impl LaneHost for Leaving {
        fn run_lanes<T, F, C>(&self, mut workers: Vec<LaneWorker<T, F, C>>)
        where
            T: Send + Sync + 'static,
            F: Fn(ExecutionId, LaneId) -> Result<T, String> + Send + Sync + 'static,
            C: Fn(&T) -> Option<String> + Send + Sync + 'static,
        {
            let worker = workers.remove(0);
            let host = tokio::runtime::Builder::new_multi_thread()
                .worker_threads(1)
                .build()
                .expect("test host should start");
            let served = host.spawn_blocking(move || worker.serve());
            assert!(host.block_on(served).is_err());
        }
    }
    let tries = Arc::new(AtomicUsize::new(0));
    let seen = Arc::clone(&tries);
    let mut scheduler = PitScheduler::new(2).expect("two lanes are valid");
    let run = scheduler
        .run_many_detailed(
            3,
            move |_, _| {
                if seen.fetch_add(1, Ordering::SeqCst) == 0 {
                    panic!("the first try does not come back");
                }
                Ok(())
            },
            &Leaving,
        )
        .expect("jobs should complete");
    check_log(&run, 0);
    assert_eq!(tries.load(Ordering::SeqCst), 4);
    assert_eq!(run.snapshot.completed, 3);
}

#[test]
fn callers_that_waited_have_a_gap() {
    let (now, wait, took) = (SystemTime::now(), Span::from_millis(3), Span::from_millis(4));
    let (id, lane) = (ExecutionId(7), LaneId(1));
    let waited = pooled_result(id, lane, now, wait, true, took, Ok::<_, String>("done"));
    assert_eq!(waited.report.scheduling_gap, wait);
    assert_eq!(waited.value, Some("done"));
    assert!(waited.report.success);
    let failed: Result<(), String> = Err("no".to_owned());
    let at_once = pooled_result(id, lane, now, wait, false, took, failed);
    assert_eq!(at_once.report.scheduling_gap, Span::zero());
    assert_eq!(at_once.report.queued_for, wait);
    assert_eq!(at_once.report.duration, took);
    assert_eq!((at_once.report.execution_id, at_once.report.lane_id), (id, lane));
    assert_eq!(at_once.report.error.as_deref(), Some("no"));
}

#[test]
fn the_peak_is_the_most_that_ran() {
    let mut scheduler = PitScheduler::new(3).expect("three lanes are valid");
    assert_eq!(scheduler.shared_peak_active(), 0);
    scheduler.run_one(|_, _| Ok::<_, String>(())).expect("one task always runs");
    assert_eq!(scheduler.shared_peak_active(), 1);
    for _ in 0..2 {
        scheduler.request_lane();
        scheduler.assign_lane();
    }
    scheduler.run_one(|_, _| Ok::<_, String>(())).expect("one task always runs");
    assert_eq!(scheduler.shared_peak_active(), 3);
    scheduler.release_lane(LaneId(0));
    scheduler.run_many(5, |_, _| Ok(()), &Threads).expect("jobs should complete");
    assert_eq!(scheduler.shared_peak_active(), 3);
}

//! Bounded local scheduling of independent executions.
//!
//! A [`PitScheduler`] owns a fixed number of execution lanes. A batch of
//! executions is a [`RunState`]: any lane that is free takes the next queued
//! execution and gives it back when it is done, in whatever order the lanes
//! come. Single executions share a pool of lanes.

use std::time::{Instant, SystemTime};

use vstd::prelude::*;

use crate::clock::Span;
use crate::lanes::{run_batch, LaneHost};
use crate::order::sort;
use crate::text::{decimal_string, padded_decimal};
use crate::{number, order, text};

verus! {

/// Monotonic invocation identifier local to one scheduler.
#[derive(Debug, Clone, Copy, PartialEq, Eq, Hash, PartialOrd, Ord, Structural)]
pub struct ExecutionId(pub u64);

impl ExecutionId {
    /// The identifier for people: counted from one, with at least four digits.
    pub fn label(&self) -> (s: String)
        requires
            self.0 < u64::MAX,
        ensures
            s@ == text::zero_padded(text::decimal((self.0 + 1) as nat), 4),
    {
        padded_decimal(self.0 + 1, 4)
    }
}

/// Zero-based host execution-lane identifier.
#[derive(Debug, Clone, Copy, PartialEq, Eq, Hash, PartialOrd, Ord, Structural)]
pub struct LaneId(pub usize);

impl LaneId {
    /// The identifier for people.
    pub fn label(&self) -> (s: String)
        ensures
            s@ == text::decimal(self.0 as nat),
    {
        decimal_string(self.0 as u64)
    }
}

/// A host CPU execution lane owned by a local scheduler.
#[derive(Debug, Clone, Copy, PartialEq, Eq, Structural)]
pub struct ExecutionLane {
    /// Zero-based lane identifier.
    pub id: LaneId,
}

/// Logical state of one execution lane.
#[derive(Debug, Clone, Copy, PartialEq, Eq, Structural)]
pub enum LaneState {
    /// The lane can accept another execution.
    Free,
    /// The lane is currently running the specified execution.
    Running { execution_id: ExecutionId },
}

/// Lightweight lifecycle events emitted by one scheduler run.
#[derive(Debug)]
pub enum ExecutionEvent {
    /// An invocation entered the scheduler's queue.
    Queued { execution_id: ExecutionId },
    /// An invocation was assigned to a lane and started.
    Started { execution_id: ExecutionId, lane_id: LaneId, queued_for: Span },
    /// An invocation completed successfully.
    Completed { execution_id: ExecutionId, lane_id: LaneId, duration: Span },
    /// An invocation failed and released its lane.
    Failed { execution_id: ExecutionId, lane_id: LaneId, duration: Span, error: String },
}

/// Basic lifecycle information for one scheduled execution.
#[derive(Debug)]
pub struct ExecutionReport {
    /// Monotonic invocation identifier.
    pub execution_id: ExecutionId,
    /// Lane that performed the invocation.
    pub lane_id: LaneId,
    /// Host timestamp immediately before the invocation started.
    pub started: SystemTime,
    /// Time spent waiting in the scheduler queue before starting.
    pub queued_for: Span,
    /// Time between work becoming schedulable and a lane assignment: nothing
    /// where a lane is free at once.
    pub scheduling_gap: Span,
    /// Wall-clock time spent in the invocation.
    pub duration: Span,
    /// Whether the invocation returned successfully.
    pub success: bool,
    /// Human-readable failure, if the invocation failed.
    pub error: Option<String>,
}

/// The value and lifecycle report produced by one scheduled execution.
#[derive(Debug)]
pub struct ExecutionResult<T> {
    pub report: ExecutionReport,
    pub value: Option<T>,
}

/// Observable scheduler state after or during a run.
#[derive(Debug)]
pub struct SchedulerSnapshot {
    pub lane_count: usize,
    pub running: usize,
    pub queued: usize,
    pub completed: usize,
    pub failed: usize,
    pub peak_active: usize,
    pub lanes: Vec<LaneState>,
}

/// Results, events, and final state from one scheduler run.
#[derive(Debug)]
pub struct SchedulerRun<T> {
    pub results: Vec<ExecutionResult<T>>,
    pub events: Vec<ExecutionEvent>,
    pub snapshot: SchedulerSnapshot,
}

/// Why a scheduler or a batch cannot be made.
#[derive(Debug, Clone, Copy, PartialEq, Eq, Structural)]
pub enum SchedulerError {
    NoLanes,
    NoExecutions,
}

impl SchedulerError {
    /// The error for people.
    pub fn message(&self) -> (s: String)
        ensures
            s@ == match *self {
                SchedulerError::NoLanes => "execution lane count must be greater than zero"@,
                SchedulerError::NoExecutions => "execution count must be greater than zero"@,
            },
    {
        match self {
            SchedulerError::NoLanes => "execution lane count must be greater than zero".to_owned(),
            SchedulerError::NoExecutions => "execution count must be greater than zero".to_owned(),
        }
    }
}

/// How many lanes are running an execution.
pub open spec fn running_lanes(lanes: Seq<LaneState>) -> nat
    decreases lanes.len(),
{
    if lanes.len() == 0 {
        0
    } else {
        running_lanes(lanes.drop_last()) + if lanes.last() is Running {
            1nat
        } else {
            0nat
        }
    }
}

proof fn lemma_running_lanes(lanes: Seq<LaneState>)
    ensures
        running_lanes(lanes) <= lanes.len(),
        (forall|i: int| 0 <= i < lanes.len() ==> #[trigger] lanes[i] is Free) <==> running_lanes(
            lanes,
        ) == 0,
    decreases lanes.len(),
{
    if lanes.len() > 0 {
        let t = lanes.drop_last();
        lemma_running_lanes(t);
        assert(forall|i: int| 0 <= i < t.len() ==> #[trigger] t[i] == lanes[i]);
        if running_lanes(lanes) == 0 {
            assert forall|i: int| 0 <= i < lanes.len() implies #[trigger] lanes[i] is Free by {
                if i < t.len() {
                    assert(t[i] is Free);
                } else {
                    assert(lanes[i] == lanes.last());
                }
            }
        } else {
            if forall|i: int| 0 <= i < lanes.len() ==> #[trigger] lanes[i] is Free {
                assert(lanes[lanes.len() - 1] is Free);
                assert forall|i: int| 0 <= i < t.len() implies #[trigger] t[i] is Free by {
                    assert(lanes[i] is Free);
                }
            }
        }
    }
}

proof fn lemma_running_lanes_update(lanes: Seq<LaneState>, at: int, state: LaneState)
    requires
        0 <= at < lanes.len(),
    ensures
        running_lanes(lanes.update(at, state)) + (if lanes[at] is Running {
            1nat
        } else {
            0nat
        }) == running_lanes(lanes) + (if state is Running {
            1nat
        } else {
            0nat
        }),
    decreases lanes.len(),
{
    let t = lanes.drop_last();
    let u = lanes.update(at, state);
    if at == lanes.len() - 1 {
        assert(u.drop_last() =~= t);
        assert(u.last() == state);
    } else {
        lemma_running_lanes_update(t, at, state);
        assert(u.drop_last() =~= t.update(at, state));
        assert(u.last() == lanes.last());
    }
}

/// The kinds of events.
pub enum EventKind {
    Queued,
    Started,
    Completed,
    Failed,
}

/// The kind of an event.
pub open spec fn kind_of(event: ExecutionEvent) -> EventKind {
    match event {
        ExecutionEvent::Queued { .. } => EventKind::Queued,
        ExecutionEvent::Started { .. } => EventKind::Started,
        ExecutionEvent::Completed { .. } => EventKind::Completed,
        ExecutionEvent::Failed { .. } => EventKind::Failed,
    }
}

/// How many events are of a kind.
pub open spec fn events_of_kind(events: Seq<ExecutionEvent>, kind: EventKind) -> nat
    decreases events.len(),
{
    if events.len() == 0 {
        0
    } else {
        events_of_kind(events.drop_last(), kind) + if kind_of(events.last()) == kind {
            1nat
        } else {
            0nat
        }
    }
}

proof fn lemma_event_push(events: Seq<ExecutionEvent>, event: ExecutionEvent)
    ensures
        forall|kind: EventKind| #[trigger]
            events_of_kind(events.push(event), kind) == events_of_kind(events, kind) + (if kind_of(
                event,
            ) == kind {
                1nat
            } else {
                0nat
            }),
{
    assert(events.push(event).drop_last() =~= events);
}

/// How many results are successes.
pub open spec fn successes<T>(results: Seq<ExecutionResult<T>>) -> nat
    decreases results.len(),
{
    if results.len() == 0 {
        0
    } else {
        successes(results.drop_last()) + if results.last().report.success {
            1nat
        } else {
            0nat
        }
    }
}

/// Whether a result reports the outcome of a task, where a returned value may
/// have been classified as a failure.
pub open spec fn settles<T>(
    result: ExecutionResult<T>,
    outcome: Result<T, String>,
    verdict: Option<String>,
) -> bool {
    match outcome {
        Ok(value) => result.value == Some(value) && result.report.success == (verdict is None)
            && result.report.error == verdict,
        Err(error) => result.value is None && !result.report.success && result.report.error
            == Some(error),
    }
}

/// How far an execution is by an event: it is queued, started or ended.
pub open spec fn step_of(event: ExecutionEvent) -> int {
    match event {
        ExecutionEvent::Queued { .. } => 0,
        ExecutionEvent::Started { .. } => 1,
        _ => 2,
    }
}

/// The execution that an event is of.
pub open spec fn execution_of(event: ExecutionEvent) -> int {
    match event {
        ExecutionEvent::Queued { execution_id } => execution_id.0 as int,
        ExecutionEvent::Started { execution_id, .. } => execution_id.0 as int,
        ExecutionEvent::Completed { execution_id, .. } => execution_id.0 as int,
        ExecutionEvent::Failed { execution_id, .. } => execution_id.0 as int,
    }
}

/// The lane that an event happened on; an execution is queued on none.
pub open spec fn lane_of(event: ExecutionEvent) -> Option<LaneId> {
    match event {
        ExecutionEvent::Queued { .. } => None,
        ExecutionEvent::Started { lane_id, .. } => Some(lane_id),
        ExecutionEvent::Completed { lane_id, .. } => Some(lane_id),
        ExecutionEvent::Failed { lane_id, .. } => Some(lane_id),
    }
}

/// The event of the start of an execution with this result.
pub open spec fn start_of<T>(result: ExecutionResult<T>) -> ExecutionEvent {
    ExecutionEvent::Started {
        execution_id: result.report.execution_id,
        lane_id: result.report.lane_id,
        queued_for: result.report.queued_for,
    }
}

/// The event of the end of an execution with this result. A failure carries its
/// error.
pub open spec fn end_of<T>(result: ExecutionResult<T>) -> ExecutionEvent {
    if result.report.success {
        ExecutionEvent::Completed {
            execution_id: result.report.execution_id,
            lane_id: result.report.lane_id,
            duration: result.report.duration,
        }
    } else {
        ExecutionEvent::Failed {
            execution_id: result.report.execution_id,
            lane_id: result.report.lane_id,
            duration: result.report.duration,
            error: result.report.error->0,
        }
    }
}

/// Whether the executions of a batch are queued first, in their order.
pub open spec fn queued_first(log: Seq<ExecutionEvent>, first: int, count: int) -> bool {
    &&& log.len() >= count
    &&& forall|i: int|
        0 <= i < count ==> #[trigger] log[i] == (ExecutionEvent::Queued {
            execution_id: ExecutionId((first + i) as u64),
        })
}

/// Whether two events are the same step of the same execution.
pub open spec fn same_step(a: ExecutionEvent, b: ExecutionEvent) -> bool {
    step_of(a) == step_of(b) && execution_of(a) == execution_of(b)
}

/// Whether no step of an execution is told twice.
pub open spec fn told_once(log: Seq<ExecutionEvent>) -> bool {
    forall|i: int, j: int| 0 <= i < j < log.len() ==> !same_step(#[trigger] log[i], #[trigger] log[j])
}

/// Whether the execution of an event ends on the lane of the event between that
/// event and another.
pub open spec fn ends_between(log: Seq<ExecutionEvent>, i: int, j: int) -> bool {
    exists|e: int|
        i < e < j && step_of(#[trigger] log[e]) == 2 && execution_of(log[e]) == execution_of(log[i])
            && lane_of(log[e]) == lane_of(log[i])
}

/// Whether a lane starts an execution only after the one before it has ended.
pub open spec fn alternates(log: Seq<ExecutionEvent>) -> bool {
    forall|i: int, j: int|
        #![trigger log[i], log[j]]
        0 <= i < j < log.len() && step_of(log[i]) == 1 && step_of(log[j]) == 1 && lane_of(log[i])
            == lane_of(log[j]) ==> ends_between(log, i, j)
}

/// Whether a log tells of the start and, later, of the end of an execution as
/// its result reports them.
pub open spec fn tells_of<T>(log: Seq<ExecutionEvent>, result: ExecutionResult<T>) -> bool {
    exists|s: int, e: int|
        0 <= s < e < log.len() && #[trigger] log[s] == start_of(result) && #[trigger] log[e]
            == end_of(result)
}

/// Whether this is the whole log of a batch: every execution is queued, in the
/// order of the identifiers, before any starts; each starts once and ends once
/// as its result reports; and no lane starts one before the last has ended.
pub open spec fn logged<T>(
    log: Seq<ExecutionEvent>,
    results: Seq<ExecutionResult<T>>,
    first: int,
    count: int,
) -> bool {
    &&& log.len() == 3 * count
    &&& queued_first(log, first, count)
    &&& forall|i: int| count <= i < log.len() ==> step_of(#[trigger] log[i]) != 0
    &&& told_once(log)
    &&& alternates(log)
    &&& forall|k: int| 0 <= k < results.len() ==> tells_of(log, #[trigger] results[k])
}

spec fn is_end_of_some<T>(event: ExecutionEvent, results: Seq<ExecutionResult<T>>) -> bool {
    exists|k: int| 0 <= k < results.len() && event == end_of(#[trigger] results[k])
}

spec fn still_runs(lanes: Seq<LaneState>, event: ExecutionEvent) -> bool {
    event matches ExecutionEvent::Started { execution_id, lane_id, .. } && lane_id.0 < lanes.len()
        && lanes[lane_id.0 as int] == (LaneState::Running { execution_id })
}

/// Whether a log is that of a batch that goes on.
#[verifier::opaque]
spec fn log_so_far<T>(
    log: Seq<ExecutionEvent>,
    results: Seq<ExecutionResult<T>>,
    lanes: Seq<LaneState>,
    waits: Seq<Span>,
    first: int,
    count: int,
    next: int,
) -> bool {
    &&& waits.len() == lanes.len()
    &&& log.len() == count + next + results.len()
    &&& queued_first(log, first, count)
    &&& forall|i: int|
        count <= i < log.len() ==> step_of(#[trigger] log[i]) != 0 && first <= execution_of(log[i])
            < first + next
    &&& told_once(log)
    &&& alternates(log)
    &&& forall|k: int| 0 <= k < results.len() ==> tells_of(log, #[trigger] results[k])
    &&& forall|e: int|
        0 <= e < log.len() && step_of(#[trigger] log[e]) == 2 ==> is_end_of_some(log[e], results)
    &&& forall|a: int|
        0 <= a < lanes.len() ==> (#[trigger] lanes[a] matches LaneState::Running { execution_id }
            ==> log.contains(
            ExecutionEvent::Started { execution_id, lane_id: LaneId(a as usize), queued_for: waits[a] },
        ))
    &&& forall|i: int|
        0 <= i < log.len() && step_of(#[trigger] log[i]) == 1 ==> still_runs(lanes, log[i])
            || ends_between(log, i, log.len() as int)
}

proof fn lemma_ends_between_stays(
    log: Seq<ExecutionEvent>,
    event: ExecutionEvent,
    i: int,
    j: int,
    k: int,
)
    requires
        0 <= i < j <= log.len(),
        j <= k,
        ends_between(log, i, j),
    ensures
        ends_between(log.push(event), i, k),
{
    let e = choose|e: int|
        i < e < j && step_of(#[trigger] log[e]) == 2 && execution_of(log[e]) == execution_of(log[i])
            && lane_of(log[e]) == lane_of(log[i]);
    let longer = log.push(event);
    assert(longer[e] == log[e] && longer[i] == log[i]);
}

proof fn lemma_tells_of_stays<T>(
    log: Seq<ExecutionEvent>,
    event: ExecutionEvent,
    result: ExecutionResult<T>,
)
    requires
        tells_of(log, result),
    ensures
        tells_of(log.push(event), result),
{
    let (s, e) = choose|s: int, e: int|
        0 <= s < e < log.len() && #[trigger] log[s] == start_of(result) && #[trigger] log[e]
            == end_of(result);
    let longer = log.push(event);
    assert(longer[s] == log[s] && longer[e] == log[e]);
}

/// The log goes on when a free lane starts the next execution.
proof fn lemma_log_start<T>(
    log: Seq<ExecutionEvent>,
    results: Seq<ExecutionResult<T>>,
    lanes: Seq<LaneState>,
    waits: Seq<Span>,
    first: int,
    count: int,
    next: int,
    lane_id: LaneId,
    wait: Span,
)
    requires
        log_so_far(log, results, lanes, waits, first, count, next),
        0 <= first,
        0 <= next,
        0 <= count,
        first + next <= u64::MAX,
        lane_id.0 < lanes.len() <= usize::MAX,
        lanes[lane_id.0 as int] is Free,
    ensures
        ({
            let execution_id = ExecutionId((first + next) as u64);
            log_so_far(
                log.push(ExecutionEvent::Started { execution_id, lane_id, queued_for: wait }),
                results,
                lanes.update(lane_id.0 as int, LaneState::Running { execution_id }),
                waits.update(lane_id.0 as int, wait),
                first,
                count,
                next + 1,
            )
        }),
{
    reveal(log_so_far);
    let execution_id = ExecutionId((first + next) as u64);
    let event = ExecutionEvent::Started { execution_id, lane_id, queued_for: wait };
    let longer = log.push(event);
    let busy = lanes.update(lane_id.0 as int, LaneState::Running { execution_id });
    let spans = waits.update(lane_id.0 as int, wait);
    let last = log.len() as int;
    assert forall|i: int| 0 <= i < last implies #[trigger] longer[i] == log[i] by {}
    assert(longer[last] == event);
    assert forall|i: int, j: int| 0 <= i < j < longer.len() implies !same_step(
        #[trigger] longer[i],
        #[trigger] longer[j],
    ) by {
        if j < last {
            assert(!same_step(log[i], log[j]));
        } else if i >= count {
            assert(execution_of(log[i]) < first + next);
        } else {
            assert(step_of(log[i]) == 0);
        }
    }
    assert forall|i: int, j: int|
        #![trigger longer[i], longer[j]]
        0 <= i < j < longer.len() && step_of(longer[i]) == 1 && step_of(longer[j]) == 1 && lane_of(
            longer[i],
        ) == lane_of(longer[j]) implies ends_between(longer, i, j) by {
        if j < last {
            assert(step_of(log[i]) == 1 && step_of(log[j]) == 1);
            lemma_ends_between_stays(log, event, i, j, j);
        } else {
            assert(step_of(log[i]) == 1);
            assert(!still_runs(lanes, log[i]));
            lemma_ends_between_stays(log, event, i, last, last);
        }
    }
    assert forall|k: int| 0 <= k < results.len() implies tells_of(longer, #[trigger] results[k]) by {
        lemma_tells_of_stays(log, event, results[k]);
    }
    assert forall|e: int|
        0 <= e < longer.len() && step_of(#[trigger] longer[e]) == 2 implies is_end_of_some(
        longer[e],
        results,
    ) by {
        assert(step_of(log[e]) == 2);
    }
    assert forall|a: int| 0 <= a < busy.len() implies (#[trigger] busy[a]
        matches LaneState::Running { execution_id } ==> longer.contains(
        ExecutionEvent::Started { execution_id, lane_id: LaneId(a as usize), queued_for: spans[a] },
    )) by {
        if a == lane_id.0 {
            assert(longer.contains(longer[last]));
        } else if lanes[a] is Running {
            let id = lanes[a]->execution_id;
            let started = ExecutionEvent::Started {
                execution_id: id,
                lane_id: LaneId(a as usize),
                queued_for: waits[a],
            };
            assert(log.contains(started));
            let s = choose|s: int| 0 <= s < log.len() && log[s] == started;
            assert(longer[s] == started);
        }
    }
    assert forall|i: int| 0 <= i < longer.len() && step_of(#[trigger] longer[i]) == 1 implies (
    still_runs(busy, longer[i]) || ends_between(longer, i, longer.len() as int)) by {
        if i < last {
            assert(step_of(log[i]) == 1);
            if still_runs(lanes, log[i]) {
                assert(still_runs(busy, longer[i]));
            } else {
                lemma_ends_between_stays(log, event, i, last, longer.len() as int);
            }
        }
    }
}

/// The log goes on when a lane ends its execution.
proof fn lemma_log_finish<T>(
    log: Seq<ExecutionEvent>,
    results: Seq<ExecutionResult<T>>,
    lanes: Seq<LaneState>,
    waits: Seq<Span>,
    first: int,
    count: int,
    next: int,
    result: ExecutionResult<T>,
)
    requires
        log_so_far(log, results, lanes, waits, first, count, next),
        0 <= count,
        result.report.lane_id.0 < lanes.len() <= usize::MAX,
        lanes[result.report.lane_id.0 as int] == (LaneState::Running {
            execution_id: result.report.execution_id,
        }),
        first <= result.report.execution_id.0 < first + next,
        result.report.queued_for == waits[result.report.lane_id.0 as int],
        forall|k: int|
            0 <= k < results.len() ==> (#[trigger] results[k]).report.execution_id
                != result.report.execution_id,
    ensures
        log_so_far(
            log.push(end_of(result)),
            results.push(result),
            lanes.update(result.report.lane_id.0 as int, LaneState::Free),
            waits,
            first,
            count,
            next,
        ),
{
    reveal(log_so_far);
    let event = end_of(result);
    let longer = log.push(event);
    let more = results.push(result);
    let at = result.report.lane_id.0 as int;
    let idle = lanes.update(at, LaneState::Free);
    let last = log.len() as int;
    assert forall|i: int| 0 <= i < last implies #[trigger] longer[i] == log[i] by {}
    assert(longer[last] == event);
    let started = ExecutionEvent::Started {
        execution_id: result.report.execution_id,
        lane_id: LaneId(at as usize),
        queued_for: waits[at],
    };
    assert(lanes[at] is Running);
    assert(log.contains(started));
    let s = choose|s: int| 0 <= s < log.len() && log[s] == started;
    assert(longer[s] == start_of(result));
    assert(tells_of(longer, result)) by {
        assert(longer[last] == end_of(result));
    }
    assert forall|i: int, j: int| 0 <= i < j < longer.len() implies !same_step(
        #[trigger] longer[i],
        #[trigger] longer[j],
    ) by {
        if j < last {
            assert(!same_step(log[i], log[j]));
        } else if step_of(log[i]) == 2 {
            assert(is_end_of_some(log[i], results));
            let k = choose|k: int| 0 <= k < results.len() && log[i] == end_of(#[trigger] results[k]);
            assert(results[k].report.execution_id != result.report.execution_id);
        }
    }
    assert forall|i: int, j: int|
        #![trigger longer[i], longer[j]]
        0 <= i < j < longer.len() && step_of(longer[i]) == 1 && step_of(longer[j]) == 1 && lane_of(
            longer[i],
        ) == lane_of(longer[j]) implies ends_between(longer, i, j) by {
        assert(step_of(log[i]) == 1 && step_of(log[j]) == 1);
        lemma_ends_between_stays(log, event, i, j, j);
    }
    assert forall|k: int| 0 <= k < more.len() implies tells_of(longer, #[trigger] more[k]) by {
        if k < results.len() {
            assert(more[k] == results[k]);
            lemma_tells_of_stays(log, event, results[k]);
        }
    }
    assert forall|e: int|
        0 <= e < longer.len() && step_of(#[trigger] longer[e]) == 2 implies is_end_of_some(
        longer[e],
        more,
    ) by {
        if e < last {
            assert(step_of(log[e]) == 2);
            let k = choose|k: int| 0 <= k < results.len() && log[e] == end_of(#[trigger] results[k]);
            assert(more[k] == results[k]);
        } else {
            assert(more[results.len() as int] == result);
        }
    }
    assert forall|a: int| 0 <= a < idle.len() implies (#[trigger] idle[a]
        matches LaneState::Running { execution_id } ==> longer.contains(
        ExecutionEvent::Started { execution_id, lane_id: LaneId(a as usize), queued_for: waits[a] },
    )) by {
        if a != at && lanes[a] is Running {
            let before = ExecutionEvent::Started {
                execution_id: lanes[a]->execution_id,
                lane_id: LaneId(a as usize),
                queued_for: waits[a],
            };
            assert(log.contains(before));
            let b = choose|b: int| 0 <= b < log.len() && log[b] == before;
            assert(longer[b] == before);
        }
    }
    assert forall|i: int| 0 <= i < longer.len() && step_of(#[trigger] longer[i]) == 1 implies (
    still_runs(idle, longer[i]) || ends_between(longer, i, longer.len() as int)) by {
        assert(step_of(log[i]) == 1);
        if still_runs(lanes, log[i]) {
            if lane_of(log[i]) == Some(result.report.lane_id) {
                assert(execution_of(longer[last]) == execution_of(longer[i]));
                assert(step_of(longer[last]) == 2);
            } else {
                assert(still_runs(idle, longer[i]));
            }
        } else {
            lemma_ends_between_stays(log, event, i, last, longer.len() as int);
        }
    }
}

/// Whether the scheduling gap of an execution is the time that it was queued.
pub open spec fn waited_in_queue<T>(result: ExecutionResult<T>) -> bool {
    result.report.scheduling_gap == result.report.queued_for
}

/// One batch of executions: the queue, the lanes and what came out so far.
pub struct RunState<T> {
    first_id: u64,
    count: usize,
    next: usize,
    running: usize,
    completed: usize,
    failed: usize,
    peak_active: usize,
    lanes: Vec<LaneState>,
    waits: Vec<Span>,
    events: Vec<ExecutionEvent>,
    results: Vec<ExecutionResult<T>>,
}

impl<T> RunState<T> {
    /// The identifier of the first execution of the batch.
    pub closed spec fn first(&self) -> int {
        self.first_id as int
    }

    /// How many executions the batch has.
    pub closed spec fn size(&self) -> int {
        self.count as int
    }

    /// How many executions have been taken from the queue.
    pub closed spec fn taken(&self) -> int {
        self.next as int
    }

    /// How many executions were running at once at the most.
    pub closed spec fn peak(&self) -> int {
        self.peak_active as int
    }

    /// What the lanes are doing.
    pub closed spec fn lane_states(&self) -> Seq<LaneState> {
        self.lanes@
    }

    /// How long the execution of each lane was queued.
    pub closed spec fn lane_waits(&self) -> Seq<Span> {
        self.waits@
    }

    /// What has happened, in order.
    pub closed spec fn log(&self) -> Seq<ExecutionEvent> {
        self.events@
    }

    /// What came out, in the order in which the executions ended.
    pub closed spec fn ended(&self) -> Seq<ExecutionResult<T>> {
        self.results@
    }

    /// The batch is sound: every execution that was taken from the queue runs
    /// on exactly one lane or has exactly one result, and the counts and the
    /// events agree with that.
    pub closed spec fn wf(&self) -> bool {
        let first = self.first_id as int;
        let next = self.next as int;
        &&& self.first_id + self.count <= u64::MAX
        &&& self.lanes@.len() > 0
        &&& self.next <= self.count
        &&& self.running == running_lanes(self.lanes@)
        &&& self.completed + self.failed == self.results@.len()
        &&& self.completed == successes(self.results@)
        &&& self.running + self.results@.len() == self.next
        &&& self.running <= self.peak_active <= self.lanes@.len()
        &&& self.peak_active <= self.next
        &&& forall|a: int|
            0 <= a < self.lanes@.len() ==> (#[trigger] self.lanes@[a] matches LaneState::Running {
                execution_id,
            } ==> first <= execution_id.0 < first + next)
        &&& forall|a: int, b: int|
            0 <= a < b < self.lanes@.len() && self.lanes@[a] is Running ==> #[trigger] self.lanes@[a]
                != #[trigger] self.lanes@[b]
        &&& forall|i: int|
            0 <= i < self.results@.len() ==> first <= (
            #[trigger] self.results@[i]).report.execution_id.0 < first + next
        &&& forall|i: int, j: int|
            0 <= i < j < self.results@.len() ==> (
            #[trigger] self.results@[i]).report.execution_id != (
            #[trigger] self.results@[j]).report.execution_id
        &&& forall|i: int, a: int|
            0 <= i < self.results@.len() && 0 <= a < self.lanes@.len()
                ==> #[trigger] self.lanes@[a] != (LaneState::Running {
                execution_id: (#[trigger] self.results@[i]).report.execution_id,
            })
        &&& forall|i: int|
            0 <= i < self.results@.len() ==> (
            #[trigger] self.results@[i]).report.lane_id.0 < self.lanes@.len()
        &&& forall|i: int|
            0 <= i < self.results@.len() ==> waited_in_queue(#[trigger] self.results@[i])
        &&& events_of_kind(self.events@, EventKind::Queued) == self.count
        &&& events_of_kind(self.events@, EventKind::Started) == self.next
        &&& events_of_kind(self.events@, EventKind::Completed) == self.completed
        &&& events_of_kind(self.events@, EventKind::Failed) == self.failed
        &&& self.next > 0 ==> self.peak_active > 0
        &&& self.waits@.len() == self.lanes@.len()
        &&& log_so_far(
            self.events@,
            self.results@,
            self.lanes@,
            self.waits@,
            first,
            self.count as int,
            next,
        )
    }

    /// A batch of so many executions, all of them queued in the order of
    /// their identifiers, with every lane free.
    pub fn new(lane_count: usize, first_id: u64, count: usize) -> (state: Self)
        requires
            lane_count > 0,
            first_id + count <= u64::MAX,
        ensures
            state.wf(),
            state.first() == first_id,
            state.size() == count,
            state.taken() == 0,
            state.peak() == 0,
            state.lane_states() == Seq::new(lane_count as nat, |i: int| LaneState::Free),
            state.log() == Seq::new(
                count as nat,
                |i: int| ExecutionEvent::Queued { execution_id: ExecutionId((first_id + i) as u64) },
            ),
            state.ended() == Seq::<ExecutionResult<T>>::empty(),
    {
        let mut lanes: Vec<LaneState> = Vec::new();
        let mut waits: Vec<Span> = Vec::new();
        let mut a: usize = 0;
        while a < lane_count
            invariant
                a <= lane_count,
                lanes@.len() == a,
                waits@.len() == a,
                forall|i: int| 0 <= i < a ==> #[trigger] lanes@[i] == LaneState::Free,
            decreases lane_count - a,
        {
            lanes.push(LaneState::Free);
            waits.push(Span::zero());
            a += 1;
        }
        let mut events: Vec<ExecutionEvent> = Vec::new();
        let mut k: usize = 0;
        while k < count
            invariant
                k <= count,
                first_id + count <= u64::MAX,
                events@.len() == k,
                forall|i: int|
                    0 <= i < k ==> #[trigger] events@[i] == (ExecutionEvent::Queued {
                        execution_id: ExecutionId((first_id + i) as u64),
                    }),
                events_of_kind(events@, EventKind::Queued) == k,
                events_of_kind(events@, EventKind::Started) == 0,
                events_of_kind(events@, EventKind::Completed) == 0,
                events_of_kind(events@, EventKind::Failed) == 0,
            decreases count - k,
        {
            let event = ExecutionEvent::Queued { execution_id: ExecutionId(first_id + k as u64) };
            proof {
                lemma_event_push(events@, event);
            }
            events.push(event);
            k += 1;
        }
        proof {
            lemma_running_lanes(lanes@);
        }
        let state = RunState {
            first_id,
            count,
            next: 0,
            running: 0,
            completed: 0,
            failed: 0,
            peak_active: 0,
            lanes,
            waits,
            events,
            results: Vec::new(),
        };
        proof {
            reveal(log_so_far);
            assert(state.lanes@ =~= Seq::new(lane_count as nat, |i: int| LaneState::Free));
            assert(state.events@ =~= Seq::new(
                count as nat,
                |i: int| ExecutionEvent::Queued { execution_id: ExecutionId((first_id + i) as u64) },
            ));
        }
        state
    }

    /// A free lane takes the next execution from the queue. With an empty
    /// queue there is none, and nothing changes.
    pub fn start(&mut self, lane_id: LaneId, queued_for: Span) -> (taken: Option<ExecutionId>)
        requires
            old(self).wf(),
            lane_id.0 < old(self).lane_states().len(),
            old(self).lane_states()[lane_id.0 as int] is Free,
        ensures
            final(self).wf(),
            final(self).first() == old(self).first(),
            final(self).size() == old(self).size(),
            final(self).ended() == old(self).ended(),
            match taken {
                None => old(self).taken() == old(self).size() && *final(self) == *old(self),
                Some(id) => {
                    &&& old(self).taken() < old(self).size()
                    &&& id.0 == old(self).first() + old(self).taken()
                    &&& final(self).taken() == old(self).taken() + 1
                    &&& final(self).lane_states() == old(self).lane_states().update(
                        lane_id.0 as int,
                        LaneState::Running { execution_id: id },
                    )
                    &&& final(self).lane_waits() == old(self).lane_waits().update(
                        lane_id.0 as int,
                        queued_for,
                    )
                    &&& final(self).log() == old(self).log().push(
                        ExecutionEvent::Started { execution_id: id, lane_id, queued_for },
                    )
                    &&& final(self).peak() == if running_lanes(final(self).lane_states())
                        > old(self).peak() {
                        running_lanes(final(self).lane_states()) as int
                    } else {
                        old(self).peak()
                    }
                },
            },
    {
        if self.next >= self.count {
            return None;
        }
        assert(self.lanes.len() <= usize::MAX);
        let execution_id = ExecutionId(self.first_id + self.next as u64);
        let event = ExecutionEvent::Started { execution_id, lane_id, queued_for };
        proof {
            lemma_running_lanes_update(
                self.lanes@,
                lane_id.0 as int,
                LaneState::Running { execution_id },
            );
            lemma_running_lanes(
                self.lanes@.update(lane_id.0 as int, LaneState::Running { execution_id }),
            );
            lemma_event_push(self.events@, event);
            lemma_log_start(
                self.events@,
                self.results@,
                self.lanes@,
                self.waits@,
                self.first_id as int,
                self.count as int,
                self.next as int,
                lane_id,
                queued_for,
            );
        }
        self.lanes.set(lane_id.0, LaneState::Running { execution_id });
        self.waits.set(lane_id.0, queued_for);
        self.next = self.next + 1;
        self.running = self.running + 1;
        if self.running > self.peak_active {
            self.peak_active = self.running;
        }
        self.events.push(event);
        Some(execution_id)
    }

    /// What a lane is doing.
    pub fn lane_state(&self, lane_id: LaneId) -> (state: LaneState)
        requires
            lane_id.0 < self.lane_states().len(),
        ensures
            state == self.lane_states()[lane_id.0 as int],
    {
        self.lanes[lane_id.0]
    }

    /// A lane gives back its execution with the outcome of the task and the
    /// verdict on a returned value, and is free again.
    pub fn finish(
        &mut self,
        lane_id: LaneId,
        started: SystemTime,
        duration: Span,
        outcome: Result<T, String>,
        verdict: Option<String>,
    )
        requires
            old(self).wf(),
            lane_id.0 < old(self).lane_states().len(),
            old(self).lane_states()[lane_id.0 as int] is Running,
        ensures
            final(self).wf(),
            final(self).first() == old(self).first(),
            final(self).size() == old(self).size(),
            final(self).taken() == old(self).taken(),
            final(self).peak() == old(self).peak(),
            final(self).lane_states() == old(self).lane_states().update(
                lane_id.0 as int,
                LaneState::Free,
            ),
            final(self).lane_waits() == old(self).lane_waits(),
            final(self).ended() == old(self).ended().push(final(self).ended().last()),
            settles(final(self).ended().last(), outcome, verdict),
            ({
                let report = final(self).ended().last().report;
                let id = old(self).lane_states()[lane_id.0 as int]->execution_id;
                &&& report.execution_id == id
                &&& report.lane_id == lane_id
                &&& report.started == started
                &&& report.queued_for == old(self).lane_waits()[lane_id.0 as int]
                &&& report.scheduling_gap == report.queued_for
                &&& report.duration == duration
                &&& final(self).log() == old(self).log().push(end_of(final(self).ended().last()))
            }),
    {
        assert(self.lanes.len() <= usize::MAX);
        let queued_for = self.waits[lane_id.0];
        let execution_id = match self.lanes[lane_id.0] {
            LaneState::Running { execution_id } => execution_id,
            LaneState::Free => ExecutionId(0),
        };
        let (success, error, value) = match outcome {
            Ok(value) => match verdict {
                Some(error) => (false, Some(error), Some(value)),
                None => (true, None, Some(value)),
            },
            Err(error) => (false, Some(error), None),
        };
        let event = match &error {
            None => ExecutionEvent::Completed { execution_id, lane_id, duration },
            Some(error) => ExecutionEvent::Failed {
                execution_id,
                lane_id,
                duration,
                error: error.clone(),
            },
        };
        let report = ExecutionReport {
            execution_id,
            lane_id,
            started,
            queued_for,
            scheduling_gap: queued_for,
            duration,
            success,
            error,
        };
        let result = ExecutionResult { report, value };
        proof {
            lemma_running_lanes_update(self.lanes@, lane_id.0 as int, LaneState::Free);
            lemma_event_push(self.events@, event);
            assert(self.results@.push(result).drop_last() =~= self.results@);
            lemma_unique_lane(self.lanes@, lane_id.0 as int);
            assert(event == end_of(result));
            assert forall|k: int| 0 <= k < self.results@.len() implies (
            #[trigger] self.results@[k]).report.execution_id != execution_id by {
                assert(self.lanes@[lane_id.0 as int] != (LaneState::Running {
                    execution_id: self.results@[k].report.execution_id,
                }));
            }
            lemma_log_finish(
                self.events@,
                self.results@,
                self.lanes@,
                self.waits@,
                self.first_id as int,
                self.count as int,
                self.next as int,
                result,
            );
        }
        self.lanes.set(lane_id.0, LaneState::Free);
        self.running = self.running - 1;
        if success {
            self.completed = self.completed + 1;
        } else {
            self.failed = self.failed + 1;
        }
        self.events.push(event);
        self.results.push(result);
    }
}

proof fn lemma_unique_lane(lanes: Seq<LaneState>, at: int)
    requires
        0 <= at < lanes.len(),
        lanes[at] is Running,
    ensures
        running_lanes(lanes) > 0,
{
    lemma_running_lanes(lanes);
}

/// Whether the results are in the order of their execution identifiers.
pub open spec fn earlier<T>() -> spec_fn(ExecutionResult<T>, ExecutionResult<T>) -> bool {
    |a: ExecutionResult<T>, b: ExecutionResult<T>|
        a.report.execution_id.0 < b.report.execution_id.0
}

proof fn lemma_successes_permuted<T>(a: Seq<ExecutionResult<T>>, b: Seq<ExecutionResult<T>>)
    requires
        a.to_multiset() == b.to_multiset(),
    ensures
        successes(a) == successes(b),
    decreases a.len(),
{
    broadcast use vstd::seq_lib::group_to_multiset_ensures;

    if a.len() == 0 {
        assert(b.len() == a.to_multiset().len());
        assert(b.len() == 0);
    } else {
        let x = a.last();
        assert(a =~= a.drop_last().push(x));
        assert(a.to_multiset().count(x) > 0);
        assert(b.contains(x));
        let k = choose|k: int| 0 <= k < b.len() && b[k] == x;
        lemma_successes_removed(b, k);
        assert(b.remove(k).to_multiset() =~= b.to_multiset().remove(x));
        assert(a.drop_last().to_multiset() =~= a.to_multiset().remove(x));
        lemma_successes_permuted(a.drop_last(), b.remove(k));
    }
}

proof fn lemma_successes_removed<T>(a: Seq<ExecutionResult<T>>, k: int)
    requires
        0 <= k < a.len(),
    ensures
        successes(a) == successes(a.remove(k)) + (if a[k].report.success {
            1nat
        } else {
            0nat
        }),
    decreases a.len(),
{
    if k == a.len() - 1 {
        assert(a.remove(k) =~= a.drop_last());
    } else {
        lemma_successes_removed(a.drop_last(), k);
        assert(a.remove(k).drop_last() =~= a.drop_last().remove(k));
        assert(a.remove(k).last() == a.last());
    }
}

/// Distinct identifiers out of as many consecutive ones, in order, are those
/// identifiers one after the other.
proof fn lemma_all_in_order<T>(results: Seq<ExecutionResult<T>>, first: int)
    requires
        forall|i: int|
            0 <= i < results.len() ==> first <= (#[trigger] results[i]).report.execution_id.0
                < first + results.len(),
        forall|i: int, j: int|
            0 <= i < j < results.len() ==> (#[trigger] results[i]).report.execution_id.0 < (
            #[trigger] results[j]).report.execution_id.0,
    ensures
        forall|i: int|
            0 <= i < results.len() ==> (#[trigger] results[i]).report.execution_id.0 == first + i,
{
    assert forall|i: int| 0 <= i < results.len() implies (
    #[trigger] results[i]).report.execution_id.0 == first + i by {
        lemma_at_least(results, first, i);
        lemma_at_most(results, first, i);
    }
}

proof fn lemma_at_least<T>(results: Seq<ExecutionResult<T>>, first: int, i: int)
    requires
        0 <= i < results.len(),
        forall|i: int|
            0 <= i < results.len() ==> first <= (#[trigger] results[i]).report.execution_id.0,
        forall|i: int, j: int|
            0 <= i < j < results.len() ==> (#[trigger] results[i]).report.execution_id.0 < (
            #[trigger] results[j]).report.execution_id.0,
    ensures
        results[i].report.execution_id.0 >= first + i,
    decreases i,
{
    if i > 0 {
        lemma_at_least(results, first, i - 1);
        assert(results[i - 1].report.execution_id.0 < results[i].report.execution_id.0);
    }
}

proof fn lemma_at_most<T>(results: Seq<ExecutionResult<T>>, first: int, i: int)
    requires
        0 <= i < results.len(),
        forall|i: int|
            0 <= i < results.len() ==> (#[trigger] results[i]).report.execution_id.0 < first
                + results.len(),
        forall|i: int, j: int|
            0 <= i < j < results.len() ==> (#[trigger] results[i]).report.execution_id.0 < (
            #[trigger] results[j]).report.execution_id.0,
    ensures
        results[i].report.execution_id.0 <= first + i,
    decreases results.len() - i,
{
    if i < results.len() - 1 {
        lemma_at_most(results, first, i + 1);
        assert(results[i].report.execution_id.0 < results[i + 1].report.execution_id.0);
    }
}

proof fn lemma_still_apart<T>(
    results: Seq<ExecutionResult<T>>,
    sorted: Seq<ExecutionResult<T>>,
    i: int,
    j: int,
)
    requires
        0 <= i < j < sorted.len(),
        sorted.to_multiset() == results.to_multiset(),
        forall|i: int, j: int|
            0 <= i < j < results.len() ==> (#[trigger] results[i]).report.execution_id != (
            #[trigger] results[j]).report.execution_id,
    ensures
        sorted[i].report.execution_id != sorted[j].report.execution_id,
{
    broadcast use vstd::seq_lib::group_to_multiset_ensures;

    assert(results.no_duplicates());
    results.lemma_multiset_has_no_duplicates();
    assert forall|x: ExecutionResult<T>|
        sorted.to_multiset().contains(x) implies #[trigger] sorted.to_multiset().count(x) == 1 by {
        assert(results.to_multiset().contains(x));
    }
    sorted.lemma_multiset_has_no_duplicates_conv();
    assert(sorted[i] != sorted[j]);
    assert(sorted.contains(sorted[i]) && sorted.contains(sorted[j]));
    assert(results.to_multiset().count(sorted[i]) > 0);
    assert(results.to_multiset().count(sorted[j]) > 0);
    assert(results.contains(sorted[i]) && results.contains(sorted[j]));
    let p = choose|p: int| 0 <= p < results.len() && results[p] == sorted[i];
    let q = choose|q: int| 0 <= q < results.len() && results[q] == sorted[j];
    if p < q {
        assert(results[p].report.execution_id != results[q].report.execution_id);
    } else {
        assert(results[q].report.execution_id != results[p].report.execution_id);
    }
}

/// Sorting keeps the results of a whole batch apart and in range: they are the
/// executions of the batch, one after the other.
proof fn lemma_sorted_results<T>(results: Seq<ExecutionResult<T>>, first: int)
    requires
        forall|i: int|
            0 <= i < results.len() ==> first <= (#[trigger] results[i]).report.execution_id.0
                < first + results.len(),
        forall|i: int, j: int|
            0 <= i < j < results.len() ==> (#[trigger] results[i]).report.execution_id != (
            #[trigger] results[j]).report.execution_id,
    ensures
        ({
            let sorted = order::in_order(results, earlier::<T>());
            &&& sorted.len() == results.len()
            &&& successes(sorted) == successes(results)
            &&& forall|i: int|
                0 <= i < sorted.len() ==> (#[trigger] sorted[i]).report.execution_id.0 == first + i
            &&& forall|i: int|
                0 <= i < sorted.len() ==> results.contains(#[trigger] sorted[i])
        }),
{
    broadcast use vstd::seq_lib::group_to_multiset_ensures;

    let sorted = order::in_order(results, earlier::<T>());
    order::lemma_in_order(results, earlier::<T>());
    lemma_successes_permuted(sorted, results);
    assert forall|i: int| 0 <= i < sorted.len() implies results.contains(#[trigger] sorted[i]) by {
        assert(sorted.contains(sorted[i]));
        assert(results.to_multiset().count(sorted[i]) > 0);
    }
    assert forall|i: int|
        0 <= i < sorted.len() implies first <= (#[trigger] sorted[i]).report.execution_id.0 < first
        + sorted.len() by {
        let j = choose|j: int| 0 <= j < results.len() && results[j] == sorted[i];
        assert(results[j] == sorted[i]);
    }
    assert forall|i: int, j: int| 0 <= i < j < sorted.len() implies (
    #[trigger] sorted[i]).report.execution_id.0 < (
    #[trigger] sorted[j]).report.execution_id.0 by {
        assert(!earlier::<T>()(sorted[j], sorted[i]));
        lemma_still_apart(results, sorted, i, j);
    }
    lemma_all_in_order(sorted, first);
}

/// What a snapshot of a batch shows.
pub open spec fn shows<T>(snapshot: SchedulerSnapshot, state: RunState<T>) -> bool {
    &&& snapshot.lane_count == state.lane_states().len()
    &&& snapshot.lanes@ == state.lane_states()
    &&& snapshot.queued == state.size() - state.taken()
    &&& snapshot.running == running_lanes(state.lane_states())
    &&& snapshot.completed == successes(state.ended())
    &&& snapshot.failed == state.ended().len() - successes(state.ended())
    &&& snapshot.peak_active == state.peak()
}

impl<T> RunState<T> {
    /// The counts and the lanes as they are.
    pub fn snapshot(&self) -> (snapshot: SchedulerSnapshot)
        requires
            self.wf(),
        ensures
            shows(snapshot, *self),
    {
        let length = self.lanes.len();
        let mut lanes: Vec<LaneState> = Vec::new();
        let mut a: usize = 0;
        while a < length
            invariant
                a <= length,
                length == self.lanes@.len(),
                lanes@ == self.lanes@.take(a as int),
            decreases length - a,
        {
            lanes.push(self.lanes[a]);
            a += 1;
            proof {
                assert(self.lanes@.take(a as int) =~= self.lanes@.take(a - 1).push(
                    self.lanes@[a - 1],
                ));
            }
        }
        proof {
            assert(self.lanes@.take(length as int) =~= self.lanes@);
        }
        SchedulerSnapshot {
            lane_count: self.lanes.len(),
            running: self.running,
            queued: self.count - self.next,
            completed: self.completed,
            failed: self.failed,
            peak_active: self.peak_active,
            lanes,
        }
    }

    /// The finished batch: its results in the order of their identifiers, its
    /// events and its last state. It may be taken when the queue is empty and
    /// every lane is free.
    pub fn into_run(self) -> (run: SchedulerRun<T>)
        requires
            self.wf(),
            self.taken() == self.size(),
            forall|a: int|
                0 <= a < self.lane_states().len() ==> #[trigger] self.lane_states()[a] is Free,
        ensures
            run.results@ == order::in_order(self.ended(), earlier::<T>()),
            run.events@ == self.log(),
            shows(run.snapshot, self),
            finished(run, self.first(), self.size(), self.lane_states().len() as int),
            forall|i: int|
                0 <= i < run.results@.len() ==> self.ended().contains(#[trigger] run.results@[i]),
    {
        let snapshot = self.snapshot();
        let ghost first = self.first_id as int;
        proof {
            reveal(log_so_far);
            lemma_running_lanes(self.lanes@);
            assert(self.results@.len() == self.next);
            lemma_sorted_results(self.results@, first);
        }
        let before = |a: &ExecutionResult<T>, b: &ExecutionResult<T>| -> (is: bool)
            ensures
                is == (a.report.execution_id.0 < b.report.execution_id.0),
            { a.report.execution_id.0 < b.report.execution_id.0 };
        let results = sort(self.results, before, Ghost(earlier::<T>()));
        proof {
            assert forall|i: int| 0 <= i < results@.len() implies (
            #[trigger] results@[i]).report.lane_id.0 < self.lanes@.len() by {
                let j = choose|j: int|
                    0 <= j < self.results@.len() && self.results@[j] == results@[i];
                assert(self.results@[j] == results@[i]);
            }
            assert forall|k: int| 0 <= k < results@.len() implies waited_in_queue(
                #[trigger] results@[k],
            ) && tells_of(self.events@, results@[k]) by {
                let j = choose|j: int|
                    0 <= j < self.results@.len() && self.results@[j] == results@[k];
                assert(self.results@[j] == results@[k]);
            }
        }
        SchedulerRun { results, events: self.events, snapshot }
    }
}

/// What holds of every finished batch: each execution has one result, in the
/// order of the identifiers; the counts and the lanes agree; and the events are
/// the whole log of it.
pub open spec fn finished<T>(run: SchedulerRun<T>, first: int, count: int, lanes: int) -> bool {
    let snapshot = run.snapshot;
    &&& run.results@.len() == count
    &&& forall|i: int|
        0 <= i < count ==> (#[trigger] run.results@[i]).report.execution_id.0 == first + i
    &&& forall|i: int| 0 <= i < count ==> (#[trigger] run.results@[i]).report.lane_id.0 < lanes
    &&& forall|i: int| 0 <= i < count ==> waited_in_queue(#[trigger] run.results@[i])
    &&& snapshot.lane_count == lanes
    &&& snapshot.running == 0
    &&& snapshot.queued == 0
    &&& snapshot.completed == successes(run.results@)
    &&& snapshot.completed + snapshot.failed == count
    &&& count > 0 ==> 1 <= snapshot.peak_active
    &&& snapshot.peak_active <= lanes
    &&& snapshot.peak_active <= count
    &&& snapshot.lanes@.len() == lanes
    &&& forall|a: int| 0 <= a < lanes ==> #[trigger] snapshot.lanes@[a] is Free
    &&& events_of_kind(run.events@, EventKind::Queued) == count
    &&& events_of_kind(run.events@, EventKind::Started) == count
    &&& events_of_kind(run.events@, EventKind::Completed) == snapshot.completed
    &&& events_of_kind(run.events@, EventKind::Failed) == snapshot.failed
    &&& logged(run.events@, run.results@, first, count)
}

/// The executions that the lanes are running, lane after lane.
spec fn running_ids(lanes: Seq<LaneState>) -> Seq<int>
    decreases lanes.len(),
{
    if lanes.len() == 0 {
        Seq::empty()
    } else {
        match lanes.last() {
            LaneState::Running { execution_id } => running_ids(lanes.drop_last()).push(
                execution_id.0 as int,
            ),
            LaneState::Free => running_ids(lanes.drop_last()),
        }
    }
}

spec fn some_lane_runs(lanes: Seq<LaneState>, id: int) -> bool {
    exists|a: int|
        0 <= a < lanes.len() && #[trigger] lanes[a] is Running && lanes[a]->execution_id.0 == id
}

/// Whether some lane is running an execution.
pub open spec fn is_running<T>(state: RunState<T>, id: int) -> bool {
    exists|a: int|
        0 <= a < state.lane_states().len() && (#[trigger] state.lane_states()[a]
            matches LaneState::Running { execution_id } && execution_id.0 == id)
}

/// Whether an execution has a result.
pub open spec fn has_ended<T>(state: RunState<T>, id: int) -> bool {
    exists|i: int|
        0 <= i < state.ended().len() && (#[trigger] state.ended()[i]).report.execution_id.0 == id
}

proof fn lemma_running_ids(lanes: Seq<LaneState>)
    requires
        forall|a: int, b: int|
            0 <= a < b < lanes.len() && lanes[a] is Running ==> #[trigger] lanes[a]
                != #[trigger] lanes[b],
    ensures
        running_ids(lanes).len() == running_lanes(lanes),
        running_ids(lanes).no_duplicates(),
        forall|k: int|
            0 <= k < running_ids(lanes).len() ==> some_lane_runs(
                lanes,
                #[trigger] running_ids(lanes)[k],
            ),
    decreases lanes.len(),
{
    if lanes.len() > 0 {
        let t = lanes.drop_last();
        assert(forall|a: int| 0 <= a < t.len() ==> #[trigger] t[a] == lanes[a]);
        lemma_running_ids(t);
        let ids = running_ids(lanes);
        let before = running_ids(t);
        assert forall|k: int| 0 <= k < ids.len() implies some_lane_runs(
            lanes,
            #[trigger] ids[k],
        ) by {
            if k < before.len() {
                assert(some_lane_runs(t, before[k]));
                let a = choose|a: int|
                    0 <= a < t.len() && #[trigger] t[a] is Running && t[a]->execution_id.0
                        == before[k];
                assert(lanes[a] is Running);
            } else {
                assert(lanes[lanes.len() - 1] is Running);
            }
        }
        assert forall|i: int, j: int| 0 <= i < j < ids.len() implies ids[i] != ids[j] by {
            if j == before.len() {
                assert(some_lane_runs(t, before[i]));
                let a = choose|a: int|
                    0 <= a < t.len() && #[trigger] t[a] is Running && t[a]->execution_id.0
                        == before[i];
                assert(lanes[a] != lanes[lanes.len() - 1]);
            }
        }
    }
}

/// Distinct numbers out of a range with as many numbers are all of them.
proof fn lemma_range_is_full(ids: Seq<int>, low: int, high: int, id: int)
    requires
        ids.no_duplicates(),
        ids.len() == high - low,
        forall|k: int| 0 <= k < ids.len() ==> low <= #[trigger] ids[k] < high,
        low <= id < high,
    ensures
        ids.contains(id),
{
    let all = vstd::set_lib::set_int_range(low, high);
    vstd::set_lib::lemma_int_range(low, high);
    ids.unique_seq_to_set();
    assert forall|x: int| ids.to_set().contains(x) implies all.contains(x) by {
        let k = choose|k: int| 0 <= k < ids.len() && ids[k] == x;
        assert(low <= ids[k] < high);
    }
    vstd::set_lib::lemma_subset_equality(ids.to_set(), all);
    assert(all.contains(id));
}

/// No execution is lost and none runs twice: in every state of a batch, an
/// execution that was taken from the queue is either on exactly one lane or
/// has exactly one result, and one that was not taken is on no lane and has no
/// result.
pub proof fn law_every_execution_is_accounted_for<T>(state: RunState<T>, id: int)
    requires
        state.wf(),
    ensures
        state.first() <= id < state.first() + state.taken() <==> (is_running(state, id)
            || has_ended(state, id)),
        !(is_running(state, id) && has_ended(state, id)),
        forall|a: int, b: int|
            0 <= a < b < state.lane_states().len() && state.lane_states()[a] is Running
                ==> #[trigger] state.lane_states()[a] != #[trigger] state.lane_states()[b],
        forall|i: int, j: int|
            0 <= i < j < state.ended().len() ==> (
            #[trigger] state.ended()[i]).report.execution_id != (
            #[trigger] state.ended()[j]).report.execution_id,
{
    let lanes = state.lane_states();
    let results = state.ended();
    let first = state.first();
    let running = running_ids(lanes);
    let ended = results.map_values(|r: ExecutionResult<T>| r.report.execution_id.0 as int);
    lemma_running_ids(lanes);
    if is_running(state, id) && has_ended(state, id) {
        let a = choose|a: int|
            0 <= a < lanes.len() && (#[trigger] lanes[a] matches LaneState::Running { execution_id }
                && execution_id.0 == id);
        let i = choose|i: int|
            0 <= i < results.len() && (#[trigger] results[i]).report.execution_id.0 == id;
        assert(lanes[a] != (LaneState::Running { execution_id: results[i].report.execution_id }));
    }
    if first <= id < first + state.taken() {
        let ids = running + ended;
        assert forall|k: int| 0 <= k < ids.len() implies first <= #[trigger] ids[k] < first
            + state.taken() by {
            if k < running.len() {
                assert(ids[k] == running[k]);
                assert(some_lane_runs(lanes, running[k]));
            } else {
                assert(ids[k] == results[k - running.len()].report.execution_id.0);
            }
        }
        assert forall|i: int, j: int| 0 <= i < j < ids.len() implies ids[i] != ids[j] by {
            if j < running.len() {
                assert(ids[i] == running[i] && ids[j] == running[j]);
            } else if i >= running.len() {
                assert(ids[i] == results[i - running.len()].report.execution_id.0);
                assert(ids[j] == results[j - running.len()].report.execution_id.0);
            } else {
                assert(ids[i] == running[i]);
                assert(some_lane_runs(lanes, running[i]));
                assert(ids[j] == results[j - running.len()].report.execution_id.0);
                let a = choose|a: int|
                    0 <= a < lanes.len() && #[trigger] lanes[a] is Running
                        && lanes[a]->execution_id.0 == running[i];
                assert(lanes[a] != (LaneState::Running {
                    execution_id: results[j - running.len()].report.execution_id,
                }));
            }
        }
        lemma_range_is_full(ids, first, first + state.taken(), id);
        let k = choose|k: int| 0 <= k < ids.len() && ids[k] == id;
        if k < running.len() {
            assert(some_lane_runs(lanes, running[k]));
            let a = choose|a: int|
                0 <= a < lanes.len() && #[trigger] lanes[a] is Running
                    && lanes[a]->execution_id.0 == running[k];
            assert(is_running(state, id));
        } else {
            assert(results[k - running.len()].report.execution_id.0 == id);
            assert(has_ended(state, id));
        }
    }
}

/// The counts of a batch agree in every state: what was taken is running or
/// has ended, never more executions run at once than there are lanes, and
/// there is one event for each step.
pub proof fn law_counts_agree<T>(state: RunState<T>)
    requires
        state.wf(),
    ensures
        0 <= state.taken() <= state.size(),
        running_lanes(state.lane_states()) + state.ended().len() == state.taken(),
        running_lanes(state.lane_states()) <= state.peak() <= state.lane_states().len(),
        state.peak() <= state.taken(),
        events_of_kind(state.log(), EventKind::Queued) == state.size(),
        events_of_kind(state.log(), EventKind::Started) == state.taken(),
        events_of_kind(state.log(), EventKind::Completed) == successes(state.ended()),
        events_of_kind(state.log(), EventKind::Failed) == state.ended().len() - successes(
            state.ended(),
        ),
{
}

/// How many lanes of a pool are occupied.
pub open spec fn occupied_lanes(occupied: Seq<bool>) -> nat
    decreases occupied.len(),
{
    if occupied.len() == 0 {
        0
    } else {
        occupied_lanes(occupied.drop_last()) + if occupied.last() {
            1nat
        } else {
            0nat
        }
    }
}

proof fn lemma_occupied_update(occupied: Seq<bool>, at: int, used: bool)
    requires
        0 <= at < occupied.len(),
    ensures
        occupied_lanes(occupied.update(at, used)) + (if occupied[at] {
            1nat
        } else {
            0nat
        }) == occupied_lanes(occupied) + (if used {
            1nat
        } else {
            0nat
        }),
        occupied_lanes(occupied.update(at, used)) <= occupied.len(),
        occupied[at] ==> occupied_lanes(occupied) > 0,
    decreases occupied.len(),
{
    let t = occupied.drop_last();
    let u = occupied.update(at, used);
    if at == occupied.len() - 1 {
        assert(u.drop_last() =~= t);
        lemma_occupied_bound(t);
    } else {
        lemma_occupied_update(t, at, used);
        assert(u.drop_last() =~= t.update(at, used));
        assert(u.last() == occupied.last());
    }
}

proof fn lemma_occupied_bound(occupied: Seq<bool>)
    ensures
        occupied_lanes(occupied) <= occupied.len(),
    decreases occupied.len(),
{
    if occupied.len() > 0 {
        lemma_occupied_bound(occupied.drop_last());
    }
}

/// The first lane of a pool that is free, or the number of lanes.
pub open spec fn first_free(occupied: Seq<bool>) -> int
    decreases occupied.len(),
{
    if occupied.len() == 0 {
        0
    } else {
        let earlier = first_free(occupied.drop_last());
        if earlier < occupied.len() - 1 || !occupied.last() {
            earlier
        } else {
            occupied.len() as int
        }
    }
}

/// The first free lane is free, and every lane before it is occupied.
pub proof fn lemma_first_free(occupied: Seq<bool>)
    ensures
        0 <= first_free(occupied) <= occupied.len(),
        first_free(occupied) < occupied.len() ==> !occupied[first_free(occupied)],
        forall|a: int| 0 <= a < first_free(occupied) ==> #[trigger] occupied[a],
    decreases occupied.len(),
{
    if occupied.len() > 0 {
        let t = occupied.drop_last();
        lemma_first_free(t);
        assert(forall|a: int| 0 <= a < t.len() ==> #[trigger] occupied[a] == t[a]);
    }
}

/// The nanoseconds that an execution adds to the busy time of its scheduler.
pub open spec fn credited(duration: Span) -> int {
    if duration.nanos > u64::MAX {
        u64::MAX as int
    } else {
        duration.nanos as int
    }
}

/// The nanoseconds that the executions of a batch add together.
pub open spec fn total_credited<T>(results: Seq<ExecutionResult<T>>) -> int
    decreases results.len(),
{
    if results.len() == 0 {
        0
    } else {
        total_credited(results.drop_last()) + credited(results.last().report.duration)
    }
}

/// A busy time with more nanoseconds added to it. The counter has as many
/// values as a `u64` and goes round.
pub open spec fn busy_after(busy: int, nanos: int) -> int {
    (busy + nanos) % 0x1_0000_0000_0000_0000
}

/// Whether a result reports a run of the task, with the verdict of the
/// classifier on a returned value.
pub open spec fn reports<T, F, C>(task: F, classify: C, result: ExecutionResult<T>) -> bool where
    F: Fn(ExecutionId, LaneId) -> Result<T, String>,
    C: Fn(&T) -> Option<String>,
 {
    exists|outcome: Result<T, String>, verdict: Option<String>|
        {
            &&& #[trigger] settles(result, outcome, verdict)
            &&& call_ensures(
                task,
                (result.report.execution_id, result.report.lane_id),
                outcome,
            )
            &&& outcome matches Ok(value) ==> call_ensures(classify, (&value,), verdict)
            &&& outcome is Err ==> verdict is None
        }
}

/// Whether a result reports a run of the task, where every returned value is
/// a success.
pub open spec fn reports_plainly<T, F>(task: F, result: ExecutionResult<T>) -> bool where
    F: FnOnce(ExecutionId, LaneId) -> Result<T, String>,
 {
    exists|outcome: Result<T, String>|
        {
            &&& #[trigger] settles(result, outcome, None)
            &&& call_ensures(
                task,
                (result.report.execution_id, result.report.lane_id),
                outcome,
            )
        }
}

/// What a caller of the pool is told of its execution. One that did not have to
/// wait for a lane has no scheduling gap; one that did has waited so long.
pub fn pooled_result<T>(
    execution_id: ExecutionId,
    lane_id: LaneId,
    started: SystemTime,
    queued_for: Span,
    waited: bool,
    duration: Span,
    outcome: Result<T, String>,
) -> (result: ExecutionResult<T>)
    ensures
        result.report.execution_id == execution_id,
        result.report.lane_id == lane_id,
        result.report.started == started,
        result.report.queued_for == queued_for,
        result.report.scheduling_gap.nanos == if waited {
            queued_for.nanos
        } else {
            0
        },
        result.report.duration == duration,
        settles(result, outcome, None),
{
    let (success, error, value) = match outcome {
        Ok(value) => (true, None, Some(value)),
        Err(error) => (false, Some(error), None),
    };
    let report = ExecutionReport {
        execution_id,
        lane_id,
        started,
        queued_for,
        scheduling_gap: if waited {
            queued_for
        } else {
            Span::zero()
        },
        duration,
        success,
        error,
    };
    ExecutionResult { report, value }
}

/// The most lanes that were occupied at once, when so many are.
pub open spec fn peak_after(peak: int, occupied: int) -> int {
    if occupied > peak {
        occupied
    } else {
        peak
    }
}

/// The most of some numbers, none of which is negative.
pub open spec fn most_of(numbers: Seq<int>) -> int
    decreases numbers.len(),
{
    if numbers.len() == 0 {
        0
    } else {
        peak_after(most_of(numbers.drop_last()), numbers.last())
    }
}

/// Whether a scheduler has gone on by one call, in which so many lanes of its
/// pool were occupied at the most.
pub open spec fn pool_went_on(before: PitScheduler, after: PitScheduler, occupied: int) -> bool {
    &&& after.wf()
    &&& after.width() == before.width()
    &&& after.pool_peak() == peak_after(before.pool_peak(), occupied)
}

/// Over every history of calls, the peak of the pool is the largest number of
/// lanes that single executions occupied at one time. It never falls, and is
/// never more than there are lanes.
pub proof fn law_peak_is_the_most_that_ran(history: Seq<PitScheduler>, occupied: Seq<int>)
    requires
        history.len() == occupied.len() + 1,
        history[0].wf(),
        history[0].pool_peak() == 0,
        forall|i: int|
            #![trigger occupied[i]]
            0 <= i < occupied.len() ==> pool_went_on(history[i], history[i + 1], occupied[i]),
    ensures
        history.last().pool_peak() == most_of(occupied),
        history.last().pool_peak() <= history[0].width(),
        forall|i: int|
            0 <= i < history.len() ==> (#[trigger] history[i]).pool_peak()
                <= history.last().pool_peak(),
    decreases occupied.len(),
{
    if occupied.len() > 0 {
        let last = occupied.len() - 1;
        let earlier = history.drop_last();
        let before = occupied.drop_last();
        assert(pool_went_on(history[last], history[last + 1], occupied[last]));
        assert forall|i: int|
            #![trigger before[i]]
            0 <= i < before.len() implies pool_went_on(earlier[i], earlier[i + 1], before[i]) by {
            assert(occupied[i] == before[i]);
        }
        law_peak_is_the_most_that_ran(earlier, before);
        lemma_widths(history, occupied, last + 1);
        history[last + 1].lemma_wf();
        assert forall|i: int| 0 <= i < history.len() implies (#[trigger] history[i]).pool_peak()
            <= history.last().pool_peak() by {
            if i < history.len() - 1 {
                assert(earlier[i] == history[i]);
            }
        }
    }
}

proof fn lemma_widths(history: Seq<PitScheduler>, occupied: Seq<int>, n: int)
    requires
        history.len() == occupied.len() + 1,
        0 <= n < history.len(),
        forall|i: int|
            #![trigger occupied[i]]
            0 <= i < occupied.len() ==> pool_went_on(history[i], history[i + 1], occupied[i]),
    ensures
        history[n].width() == history[0].width(),
    decreases n,
{
    if n > 0 {
        lemma_widths(history, occupied, n - 1);
        assert(pool_went_on(history[n - 1], history[n - 1 + 1], occupied[n - 1]));
    }
}

/// The sum of some numbers.
pub open spec fn sum_of(numbers: Seq<int>) -> int
    decreases numbers.len(),
{
    if numbers.len() == 0 {
        0
    } else {
        sum_of(numbers.drop_last()) + numbers.last()
    }
}

/// Over every history of calls, the busy time grows by what each execution adds,
/// failed ones included, as long as the counter does not go round.
pub proof fn law_busy_time_adds_up(history: Seq<PitScheduler>, added: Seq<int>)
    requires
        history.len() == added.len() + 1,
        0 <= history[0].busy() <= u64::MAX,
        history[0].busy() + sum_of(added) <= u64::MAX,
        forall|i: int|
            #![trigger added[i]]
            0 <= i < added.len() ==> 0 <= added[i] && history[i + 1].busy() == busy_after(
                history[i].busy(),
                added[i],
            ),
    ensures
        history.last().busy() == history[0].busy() + sum_of(added),
        forall|i: int|
            0 <= i < history.len() ==> (#[trigger] history[i]).busy() <= history.last().busy(),
    decreases added.len(),
{
    if added.len() > 0 {
        let last = added.len() - 1;
        let earlier = history.drop_last();
        let before = added.drop_last();
        assert(0 <= added[last] && history[last + 1].busy() == busy_after(
            history[last].busy(),
            added[last],
        ));
        assert forall|i: int|
            #![trigger before[i]]
            0 <= i < before.len() implies 0 <= before[i] && earlier[i + 1].busy() == busy_after(
            earlier[i].busy(),
            before[i],
        ) by {
            assert(added[i] == before[i]);
        }
        law_busy_time_adds_up(earlier, before);
        lemma_sum_of(before);
        assert(earlier.last() == history[last]);
        assert forall|i: int| 0 <= i < history.len() implies (#[trigger] history[i]).busy()
            <= history.last().busy() by {
            if i < history.len() - 1 {
                assert(earlier[i] == history[i]);
            }
        }
    }
}

proof fn lemma_sum_of(numbers: Seq<int>)
    requires
        forall|i: int| 0 <= i < numbers.len() ==> 0 <= #[trigger] numbers[i],
    ensures
        0 <= sum_of(numbers),
    decreases numbers.len(),
{
    if numbers.len() > 0 {
        let rest = numbers.drop_last();
        assert forall|i: int| 0 <= i < rest.len() implies 0 <= #[trigger] rest[i] by {
            assert(numbers[i] == rest[i]);
        }
        lemma_sum_of(rest);
    }
}

/// The identifiers of a batch follow one another, none missing and none twice,
/// whatever order its executions ended in, and those of a later batch of the same
/// scheduler are larger.
pub proof fn law_identifiers_grow<T, U>(
    earlier: SchedulerRun<T>,
    first: int,
    count: int,
    later: SchedulerRun<U>,
    later_first: int,
    later_count: int,
    lanes: int,
)
    requires
        finished(earlier, first, count, lanes),
        finished(later, later_first, later_count, lanes),
        first + count <= later_first,
    ensures
        earlier.results@.len() == count,
        forall|i: int|
            0 <= i < count ==> (#[trigger] earlier.results@[i]).report.execution_id.0 == first + i,
        forall|i: int, j: int|
            0 <= i < count && 0 <= j < later_count ==> (
            #[trigger] earlier.results@[i]).report.execution_id.0 < (
            #[trigger] later.results@[j]).report.execution_id.0,
{
}

/// A scheduler over a fixed number of lanes. Batches run through a
/// [`RunState`]; single executions share a pool of the same lanes.
pub struct PitScheduler {
    lanes: Vec<ExecutionLane>,
    next_execution_id: u64,
    occupied: Vec<bool>,
    shared_active: usize,
    shared_waiting: usize,
    shared_peak: usize,
    busy_nanos: u64,
}

impl PitScheduler {
    /// How many lanes the scheduler owns.
    pub closed spec fn width(&self) -> int {
        self.lanes@.len() as int
    }

    /// The identifier that the next execution gets.
    pub closed spec fn next_id(&self) -> int {
        self.next_execution_id as int
    }

    /// Which lanes of the pool are occupied.
    pub closed spec fn pool(&self) -> Seq<bool> {
        self.occupied@
    }

    /// How many callers wait for a lane of the pool.
    pub closed spec fn waiting(&self) -> int {
        self.shared_waiting as int
    }

    /// How many lanes of the pool were occupied at once at the most.
    pub closed spec fn pool_peak(&self) -> int {
        self.shared_peak as int
    }

    /// The busy time in nanoseconds.
    pub closed spec fn busy(&self) -> int {
        self.busy_nanos as int
    }

    /// The scheduler has a lane, its lanes are numbered from zero, and its
    /// counts agree with the pool.
    pub closed spec fn wf(&self) -> bool {
        &&& self.lanes@.len() > 0
        &&& self.occupied@.len() == self.lanes@.len()
        &&& forall|i: int| 0 <= i < self.lanes@.len() ==> (#[trigger] self.lanes@[i]).id.0 == i
        &&& self.shared_active == occupied_lanes(self.occupied@)
        &&& self.shared_active <= self.shared_peak <= self.lanes@.len()
    }

    /// What a sound scheduler keeps.
    pub proof fn lemma_wf(&self)
        requires
            self.wf(),
        ensures
            self.width() > 0,
            self.pool().len() == self.width(),
            occupied_lanes(self.pool()) <= self.pool_peak() <= self.width(),
            0 <= self.busy() <= u64::MAX,
            0 <= self.next_id() <= u64::MAX,
            0 <= self.waiting() <= usize::MAX,
    {
    }

    fn with_lanes(lane_count: usize) -> (scheduler: Self)
        requires
            lane_count > 0,
        ensures
            scheduler.wf(),
            scheduler.width() == lane_count,
            scheduler.next_id() == 0,
            scheduler.pool() == Seq::new(lane_count as nat, |i: int| false),
            scheduler.waiting() == 0,
            scheduler.pool_peak() == 0,
            scheduler.busy() == 0,
    {
        let mut lanes: Vec<ExecutionLane> = Vec::new();
        let mut occupied: Vec<bool> = Vec::new();
        let mut a: usize = 0;
        while a < lane_count
            invariant
                a <= lane_count,
                lanes@.len() == a,
                occupied@.len() == a,
                forall|i: int| 0 <= i < a ==> (#[trigger] lanes@[i]).id.0 == i,
                forall|i: int| 0 <= i < a ==> #[trigger] occupied@[i] == false,
                occupied_lanes(occupied@) == 0,
            decreases lane_count - a,
        {
            proof {
                assert(occupied@.push(false).drop_last() =~= occupied@);
            }
            lanes.push(ExecutionLane { id: LaneId(a) });
            occupied.push(false);
            a += 1;
        }
        proof {
            assert(occupied@ =~= Seq::new(lane_count as nat, |i: int| false));
        }
        PitScheduler {
            lanes,
            next_execution_id: 0,
            occupied,
            shared_active: 0,
            shared_waiting: 0,
            shared_peak: 0,
            busy_nanos: 0,
        }
    }

    /// A scheduler with exactly so many lanes, all of them free. It needs one.
    pub fn new(lane_count: usize) -> (made: Result<Self, SchedulerError>)
        ensures
            match made {
                Err(error) => lane_count == 0 && error == SchedulerError::NoLanes,
                Ok(scheduler) => {
                    &&& lane_count > 0
                    &&& scheduler.wf()
                    &&& scheduler.width() == lane_count
                    &&& scheduler.next_id() == 0
                    &&& scheduler.pool() == Seq::new(lane_count as nat, |i: int| false)
                    &&& scheduler.waiting() == 0
                    &&& scheduler.pool_peak() == 0
                    &&& scheduler.busy() == 0
                },
            },
    {
        if lane_count == 0 {
            return Err(SchedulerError::NoLanes);
        }
        Ok(PitScheduler::with_lanes(lane_count))
    }

    /// A scheduler with a lane for each thread that the host is known to run at
    /// once, or with one lane where the host does not tell.
    pub fn local(detected: Option<usize>) -> (scheduler: Self)
        requires
            detected != Some(0usize),
        ensures
            scheduler.wf(),
            scheduler.width() == match detected {
                Some(threads) => threads as int,
                None => 1,
            },
            scheduler.next_id() == 0,
            scheduler.pool() == Seq::new(scheduler.width() as nat, |i: int| false),
            scheduler.waiting() == 0,
            scheduler.pool_peak() == 0,
            scheduler.busy() == 0,
    {
        match detected {
            Some(threads) => PitScheduler::with_lanes(threads),
            None => PitScheduler::with_lanes(1),
        }
    }

    /// The number of lanes.
    pub fn lane_count(&self) -> (count: usize)
        ensures
            count == self.width(),
    {
        self.lanes.len()
    }

    /// The lanes, in the order of their numbers.
    pub fn lanes(&self) -> (lanes: &[ExecutionLane])
        requires
            self.wf(),
        ensures
            lanes@.len() == self.width(),
            forall|i: int| 0 <= i < lanes@.len() ==> (#[trigger] lanes@[i]).id.0 == i,
    {
        self.lanes.as_slice()
    }

    /// Peak occupancy of the pool.
    pub fn shared_peak_active(&self) -> (count: usize)
        ensures
            count == self.pool_peak(),
    {
        self.shared_peak
    }

    /// How many executions occupy lanes of the pool.
    pub fn shared_active(&self) -> (count: usize)
        requires
            self.wf(),
        ensures
            count == occupied_lanes(self.pool()),
    {
        self.shared_active
    }

    /// How many callers wait for a lane of the pool.
    pub fn shared_waiting(&self) -> (count: usize)
        ensures
            count == self.waiting(),
    {
        self.shared_waiting
    }

    /// The time that the lanes were busy, added up.
    pub fn busy_time(&self) -> (span: Span)
        ensures
            span.nanos == self.busy(),
    {
        Span::from_nanos(self.busy_nanos)
    }

    /// The lane time that was there to be used in a span, in nanoseconds: the
    /// span once for each lane, or the largest number that can be told.
    pub fn lane_capacity(&self, elapsed: Span) -> (nanos: u128)
        ensures
            nanos == if elapsed.nanos * self.width() > u128::MAX {
                u128::MAX as int
            } else {
                elapsed.nanos * self.width()
            },
    {
        match elapsed.nanos.checked_mul(self.lanes.len() as u128) {
            Some(nanos) => nanos,
            None => u128::MAX,
        }
    }

    /// A light view of the pool. An occupied lane is shown with the first
    /// identifier, since a caller has none to show before it enters its lane.
    pub fn shared_snapshot(&self) -> (snapshot: SchedulerSnapshot)
        requires
            self.wf(),
        ensures
            snapshot.lane_count == self.width(),
            snapshot.running == occupied_lanes(self.pool()),
            snapshot.queued == self.waiting(),
            snapshot.completed == 0,
            snapshot.failed == 0,
            snapshot.peak_active == self.pool_peak(),
            snapshot.lanes@ == self.pool().map_values(
                |used: bool|
                    if used {
                        LaneState::Running { execution_id: ExecutionId(0) }
                    } else {
                        LaneState::Free
                    },
            ),
    {
        let length = self.occupied.len();
        let mut lanes: Vec<LaneState> = Vec::new();
        let mut a: usize = 0;
        while a < length
            invariant
                a <= length,
                length == self.occupied@.len(),
                lanes@.len() == a,
                forall|i: int|
                    0 <= i < a ==> #[trigger] lanes@[i] == if self.occupied@[i] {
                        LaneState::Running { execution_id: ExecutionId(0) }
                    } else {
                        LaneState::Free
                    },
            decreases length - a,
        {
            if self.occupied[a] {
                lanes.push(LaneState::Running { execution_id: ExecutionId(0) });
            } else {
                lanes.push(LaneState::Free);
            }
            a += 1;
        }
        SchedulerSnapshot {
            lane_count: self.lanes.len(),
            running: self.shared_active,
            queued: self.shared_waiting,
            completed: 0,
            failed: 0,
            peak_active: self.shared_peak,
            lanes,
        }
    }

    /// A caller asks for a lane of the pool: it gets the next identifier and
    /// waits.
    pub fn request_lane(&mut self) -> (execution_id: ExecutionId)
        requires
            old(self).wf(),
            old(self).next_id() < u64::MAX,
            old(self).waiting() < usize::MAX,
        ensures
            final(self).wf(),
            execution_id.0 == old(self).next_id(),
            final(self).next_id() == old(self).next_id() + 1,
            final(self).waiting() == old(self).waiting() + 1,
            final(self).width() == old(self).width(),
            final(self).pool() == old(self).pool(),
            final(self).pool_peak() == old(self).pool_peak(),
            final(self).busy() == old(self).busy(),
    {
        let execution_id = ExecutionId(self.next_execution_id);
        self.next_execution_id = self.next_execution_id + 1;
        self.shared_waiting = self.shared_waiting + 1;
        execution_id
    }

    /// A waiting caller takes the first free lane of the pool. Where none is
    /// free it goes on waiting, and nothing changes.
    pub fn assign_lane(&mut self) -> (assigned: Option<LaneId>)
        requires
            old(self).wf(),
            old(self).waiting() > 0,
        ensures
            final(self).wf(),
            final(self).next_id() == old(self).next_id(),
            final(self).width() == old(self).width(),
            final(self).busy() == old(self).busy(),
            match assigned {
                None => first_free(old(self).pool()) == old(self).width() && *final(self) == *old(
                    self,
                ),
                Some(lane) => {
                    &&& first_free(old(self).pool()) < old(self).width()
                    &&& lane.0 == first_free(old(self).pool())
                    &&& final(self).pool() == old(self).pool().update(lane.0 as int, true)
                    &&& final(self).waiting() == old(self).waiting() - 1
                    &&& final(self).pool_peak() == peak_after(
                        old(self).pool_peak(),
                        occupied_lanes(final(self).pool()) as int,
                    )
                },
            },
    {
        let length = self.occupied.len();
        let mut a: usize = 0;
        while a < length && self.occupied[a]
            invariant
                a <= length,
                length == self.occupied@.len(),
                *self == *old(self),
                forall|i: int| 0 <= i < a ==> #[trigger] self.occupied@[i],
            decreases length - a,
        {
            a += 1;
        }
        proof {
            lemma_first_free(self.occupied@);
            if a < length {
                assert(!self.occupied@[a as int]);
                lemma_occupied_update(self.occupied@, a as int, true);
            }
        }
        if a == length {
            return None;
        }
        self.occupied.set(a, true);
        self.shared_waiting = self.shared_waiting - 1;
        self.shared_active = self.shared_active + 1;
        if self.shared_active > self.shared_peak {
            self.shared_peak = self.shared_active;
        }
        Some(LaneId(a))
    }

    /// Adds the time of one execution to the busy time.
    pub fn add_busy(&mut self, duration: Span)
        requires
            old(self).wf(),
        ensures
            final(self).wf(),
            final(self).busy() == busy_after(old(self).busy(), credited(duration)),
            final(self).next_id() == old(self).next_id(),
            final(self).width() == old(self).width(),
            final(self).pool() == old(self).pool(),
            final(self).waiting() == old(self).waiting(),
            final(self).pool_peak() == old(self).pool_peak(),
    {
        let nanos = if duration.nanos > u64::MAX as u128 {
            u64::MAX
        } else {
            duration.nanos as u64
        };
        self.busy_nanos = self.busy_nanos.wrapping_add(nanos);
    }

    /// A caller that is done gives its lane back.
    pub fn release_lane(&mut self, lane: LaneId)
        requires
            old(self).wf(),
            lane.0 < old(self).width(),
            old(self).pool()[lane.0 as int],
        ensures
            final(self).wf(),
            final(self).pool() == old(self).pool().update(lane.0 as int, false),
            final(self).busy() == old(self).busy(),
            final(self).next_id() == old(self).next_id(),
            final(self).width() == old(self).width(),
            final(self).waiting() == old(self).waiting(),
            final(self).pool_peak() == old(self).pool_peak(),
    {
        proof {
            lemma_occupied_update(self.occupied@, lane.0 as int, false);
        }
        self.occupied.set(lane.0, false);
        self.shared_active = self.shared_active - 1;
    }

    /// Runs one task on the first free lane of the pool, which is free again
    /// afterwards. As a lane is free there is no scheduling gap. A task that fails
    /// is reported as such; the call itself succeeds.
    pub fn run_one<T, F>(&mut self, task: F) -> (ran: Result<ExecutionResult<T>, SchedulerError>)
        where F: FnOnce(ExecutionId, LaneId) -> Result<T, String>

        requires
            old(self).wf(),
            old(self).next_id() < u64::MAX,
            old(self).waiting() < usize::MAX,
            first_free(old(self).pool()) < old(self).width(),
            call_requires(
                task,
                (
                    ExecutionId(old(self).next_id() as u64),
                    LaneId(first_free(old(self).pool()) as usize),
                ),
            ),
        ensures
            ran matches Ok(result) && {
                &&& result.report.execution_id.0 == old(self).next_id()
                &&& result.report.lane_id.0 == first_free(old(self).pool())
                &&& result.report.scheduling_gap.nanos == 0
                &&& reports_plainly(task, result)
                &&& final(self).busy() == busy_after(
                    old(self).busy(),
                    credited(result.report.duration),
                )
            },
            final(self).wf(),
            final(self).next_id() == old(self).next_id() + 1,
            final(self).width() == old(self).width(),
            final(self).pool() == old(self).pool(),
            final(self).waiting() == old(self).waiting(),
            final(self).pool_peak() == peak_after(
                old(self).pool_peak(),
                occupied_lanes(old(self).pool()) as int + 1,
            ),
    {
        let ghost pool = self.occupied@;
        let queued_at = Instant::now();
        let execution_id = self.request_lane();
        let lane_id = match self.assign_lane() {
            Some(lane_id) => lane_id,
            None => LaneId(0),
        };
        let queued_for = Span::since(&queued_at);
        let started = SystemTime::now();
        let timer = Instant::now();
        let outcome = task(execution_id, lane_id);
        let duration = Span::since(&timer);
        self.add_busy(duration);
        let result = pooled_result(
            execution_id,
            lane_id,
            started,
            queued_for,
            false,
            duration,
            outcome,
        );
        proof {
            lemma_first_free(pool);
            lemma_occupied_update(pool, lane_id.0 as int, true);
        }
        self.release_lane(lane_id);
        proof {
            assert(pool.update(lane_id.0 as int, true).update(lane_id.0 as int, false) =~= pool);
        }
        Ok(result)
    }

    /// Queues a batch of so many executions on all lanes. Their identifiers are
    /// taken, and nothing else changes.
    pub fn begin_batch<T>(&mut self, count: usize) -> (begun: Result<RunState<T>, SchedulerError>)
        requires
            old(self).wf(),
            old(self).next_id() + count <= u64::MAX,
        ensures
            final(self).wf(),
            final(self).next_id() == old(self).next_id() + count,
            final(self).width() == old(self).width(),
            final(self).pool() == old(self).pool(),
            final(self).waiting() == old(self).waiting(),
            final(self).pool_peak() == old(self).pool_peak(),
            final(self).busy() == old(self).busy(),
            match begun {
                Err(error) => count == 0 && error == SchedulerError::NoExecutions && *final(self)
                    == *old(self),
                Ok(state) => {
                    &&& count > 0
                    &&& state.wf()
                    &&& state.first() == old(self).next_id()
                    &&& state.size() == count
                    &&& state.taken() == 0
                    &&& state.peak() == 0
                    &&& state.lane_states() == Seq::new(
                        old(self).width() as nat,
                        |i: int| LaneState::Free,
                    )
                    &&& state.log() == Seq::new(
                        count as nat,
                        |i: int|
                            ExecutionEvent::Queued {
                                execution_id: ExecutionId((old(self).next_id() + i) as u64),
                            },
                    )
                    &&& state.ended() == Seq::<ExecutionResult<T>>::empty()
                },
            },
    {
        if count == 0 {
            return Err(SchedulerError::NoExecutions);
        }
        let first_id = self.next_execution_id;
        self.next_execution_id = self.next_execution_id + count as u64;
        Ok(RunState::new(self.lanes.len(), first_id, count))
    }

    /// Runs so many tasks on the lanes of a host, where a returned value may be
    /// classified as a failure without losing it. Excess tasks are queued, and a
    /// lane takes the next one as soon as it is done with the last. How the lanes
    /// overlap is for the host to say: what is told here holds however they do.
    pub fn run_many_classified<T, F, C, H>(
        &mut self,
        count: usize,
        task: F,
        classify: C,
        host: &H,
    ) -> (ran: Result<SchedulerRun<T>, SchedulerError>) where
        T: Send + Sync + 'static,
        F: Fn(ExecutionId, LaneId) -> Result<T, String> + Send + Sync + 'static,
        C: Fn(&T) -> Option<String> + Send + Sync + 'static,
        H: LaneHost,

        requires
            old(self).wf(),
            old(self).next_id() + count <= u64::MAX,
            forall|id: ExecutionId, lane: LaneId|
                old(self).next_id() <= id.0 < old(self).next_id() + count && lane.0 < old(
                    self,
                ).width() ==> #[trigger] call_requires(task, (id, lane)),
            forall|value: &T| #[trigger] call_requires(classify, (value,)),
        ensures
            final(self).wf(),
            final(self).next_id() == old(self).next_id() + count,
            final(self).width() == old(self).width(),
            final(self).pool() == old(self).pool(),
            final(self).waiting() == old(self).waiting(),
            final(self).pool_peak() == old(self).pool_peak(),
            match ran {
                Err(error) => count == 0 && error == SchedulerError::NoExecutions && *final(self)
                    == *old(self),
                Ok(run) => {
                    &&& count > 0
                    &&& finished(run, old(self).next_id(), count as int, old(self).width())
                    &&& forall|i: int|
                        0 <= i < count ==> reports(task, classify, #[trigger] run.results@[i])
                    &&& final(self).busy() == busy_after(
                        old(self).busy(),
                        total_credited(run.results@),
                    )
                },
            },
    {
        let lane_count = self.lanes.len();
        let first_id = self.next_execution_id;
        let state: RunState<T> = match self.begin_batch(count) {
            Ok(state) => state,
            Err(error) => {
                return Err(error);
            },
        };
        let ended = run_batch(state, lane_count, first_id, count, task, classify, host);
        let ghost results = ended.ended();
        let run = ended.into_run();
        proof {
            assert forall|i: int| 0 <= i < count implies reports(
                task,
                classify,
                #[trigger] run.results@[i],
            ) by {
                assert(results.contains(run.results@[i]));
                let j = choose|j: int| 0 <= j < results.len() && results[j] == run.results@[i];
                assert(reports(task, classify, results[j]));
            }
        }
        let mut k: usize = 0;
        while k < count
            invariant
                k <= count,
                count == run.results@.len(),
                self.wf(),
                self.next_id() == old(self).next_id() + count,
                self.width() == old(self).width(),
                self.pool() == old(self).pool(),
                self.waiting() == old(self).waiting(),
                self.pool_peak() == old(self).pool_peak(),
                self.busy() == busy_after(
                    old(self).busy(),
                    total_credited(run.results@.take(k as int)),
                ),
            decreases count - k,
        {
            self.add_busy(run.results[k].report.duration);
            k += 1;
            proof {
                assert(run.results@.take(k as int).drop_last() =~= run.results@.take(k - 1));
            }
        }
        proof {
            assert(run.results@.take(count as int) =~= run.results@);
        }
        Ok(run)
    }

    /// Runs so many tasks and tells what happened. Every returned value is a
    /// success.
    pub fn run_many_detailed<T, F, H>(&mut self, count: usize, task: F, host: &H) -> (ran: Result<
        SchedulerRun<T>,
        SchedulerError,
    >) where
        T: Send + Sync + 'static,
        F: Fn(ExecutionId, LaneId) -> Result<T, String> + Send + Sync + 'static,
        H: LaneHost,

        requires
            old(self).wf(),
            old(self).next_id() + count <= u64::MAX,
            forall|id: ExecutionId, lane: LaneId|
                old(self).next_id() <= id.0 < old(self).next_id() + count && lane.0 < old(
                    self,
                ).width() ==> #[trigger] call_requires(task, (id, lane)),
        ensures
            final(self).wf(),
            final(self).next_id() == old(self).next_id() + count,
            final(self).width() == old(self).width(),
            final(self).pool() == old(self).pool(),
            final(self).waiting() == old(self).waiting(),
            final(self).pool_peak() == old(self).pool_peak(),
            match ran {
                Err(error) => count == 0 && error == SchedulerError::NoExecutions && *final(self)
                    == *old(self),
                Ok(run) => {
                    &&& count > 0
                    &&& finished(run, old(self).next_id(), count as int, old(self).width())
                    &&& forall|i: int|
                        0 <= i < count ==> reports_plainly(task, #[trigger] run.results@[i])
                    &&& final(self).busy() == busy_after(
                        old(self).busy(),
                        total_credited(run.results@),
                    )
                },
            },
    {
        let accept = |value: &T| -> (verdict: Option<String>)
            ensures
                verdict is None,
            { None };
        let ran = self.run_many_classified(count, task, accept, host);
        proof {
            if ran is Ok {
                let run = ran->Ok_0;
                assert forall|i: int| 0 <= i < count implies reports_plainly(
                    task,
                    #[trigger] run.results@[i],
                ) by {
                    let result = run.results@[i];
                    assert(reports(task, accept, result));
                    let (outcome, verdict): (Result<T, String>, Option<String>) = choose|
                        outcome: Result<T, String>,
                        verdict: Option<String>,
                    |
                        {
                            &&& #[trigger] settles(result, outcome, verdict)
                            &&& call_ensures(
                                task,
                                (result.report.execution_id, result.report.lane_id),
                                outcome,
                            )
                            &&& outcome matches Ok(value) ==> call_ensures(
                                accept,
                                (&value,),
                                verdict,
                            )
                            &&& outcome is Err ==> verdict is None
                        };
                    assert(verdict is None);
                    assert(settles(result, outcome, None));
                }
            }
        }
        ran
    }

    /// Runs so many tasks and gives their results alone.
    pub fn run_many<T, F, H>(&mut self, count: usize, task: F, host: &H) -> (ran: Result<
        Vec<ExecutionResult<T>>,
        SchedulerError,
    >) where
        T: Send + Sync + 'static,
        F: Fn(ExecutionId, LaneId) -> Result<T, String> + Send + Sync + 'static,
        H: LaneHost,

        requires
            old(self).wf(),
            old(self).next_id() + count <= u64::MAX,
            forall|id: ExecutionId, lane: LaneId|
                old(self).next_id() <= id.0 < old(self).next_id() + count && lane.0 < old(
                    self,
                ).width() ==> #[trigger] call_requires(task, (id, lane)),
        ensures
            final(self).wf(),
            final(self).next_id() == old(self).next_id() + count,
            final(self).width() == old(self).width(),
            final(self).pool() == old(self).pool(),
            final(self).waiting() == old(self).waiting(),
            final(self).pool_peak() == old(self).pool_peak(),
            match ran {
                Err(error) => count == 0 && error == SchedulerError::NoExecutions && *final(self)
                    == *old(self),
                Ok(results) => {
                    &&& count > 0
                    &&& results@.len() == count
                    &&& forall|i: int|
                        0 <= i < count ==> {
                            &&& (#[trigger] results@[i]).report.execution_id.0 == old(
                                self,
                            ).next_id() + i
                            &&& results@[i].report.lane_id.0 < old(self).width()
                            &&& waited_in_queue(results@[i])
                            &&& reports_plainly(task, results@[i])
                        }
                    &&& final(self).busy() == busy_after(
                        old(self).busy(),
                        total_credited(results@),
                    )
                },
            },
    {
        match self.run_many_detailed(count, task, host) {
            Ok(run) => Ok(run.results),
            Err(error) => Err(error),
        }
    }
}

/// The lanes that run are those that run something, each once.
pub proof fn law_running_lanes_are_counted(lanes: Seq<LaneState>)
    ensures
        running_lanes(lanes) == lanes.filter(|lane: LaneState| lane is Running).len(),
        running_lanes(lanes) <= lanes.len(),
    decreases lanes.len(),
{
    reveal(Seq::filter);
    if lanes.len() > 0 {
        law_running_lanes_are_counted(lanes.drop_last());
    }
}

/// The lanes that are taken are those that are marked so, each once.
pub proof fn law_taken_lanes_are_counted(occupied: Seq<bool>)
    ensures
        occupied_lanes(occupied) == occupied.filter(|taken: bool| taken).len(),
        occupied_lanes(occupied) <= occupied.len(),
    decreases occupied.len(),
{
    reveal(Seq::filter);
    if occupied.len() > 0 {
        law_taken_lanes_are_counted(occupied.drop_last());
    }
}

/// The executions that succeeded are those that are reported as successes, each
/// once.
pub proof fn law_successes_are_counted<T>(results: Seq<ExecutionResult<T>>)
    ensures
        successes(results) == results.filter(
            |result: ExecutionResult<T>| result.report.success,
        ).len(),
        successes(results) <= results.len(),
    decreases results.len(),
{
    reveal(Seq::filter);
    if results.len() > 0 {
        law_successes_are_counted(results.drop_last());
    }
}

/// Events are counted by what they tell, each once.
pub proof fn law_events_are_counted(events: Seq<ExecutionEvent>)
    ensures
        events_of_kind(events, EventKind::Queued) == events.filter(
            |event: ExecutionEvent| event is Queued,
        ).len(),
        events_of_kind(events, EventKind::Started) == events.filter(
            |event: ExecutionEvent| event is Started,
        ).len(),
        events_of_kind(events, EventKind::Completed) == events.filter(
            |event: ExecutionEvent| event is Completed,
        ).len(),
        events_of_kind(events, EventKind::Failed) == events.filter(
            |event: ExecutionEvent| event is Failed,
        ).len(),
    decreases events.len(),
{
    reveal(Seq::filter);
    if events.len() > 0 {
        law_events_are_counted(events.drop_last());
    }
}

/// The lane that is given out is the first that is free: every lane before it is
/// taken. There is none exactly where all are.
pub proof fn law_the_first_free_lane_is_given(occupied: Seq<bool>)
    ensures
        0 <= first_free(occupied) <= occupied.len(),
        forall|i: int| 0 <= i < first_free(occupied) ==> #[trigger] occupied[i],
        first_free(occupied) < occupied.len() ==> !occupied[first_free(occupied)],
        first_free(occupied) == occupied.len() <==> occupied_lanes(occupied) == occupied.len(),
    decreases occupied.len(),
{
    law_taken_lanes_are_counted(occupied);
    if occupied.len() > 0 {
        let front = occupied.drop_last();
        law_the_first_free_lane_is_given(front);
        law_taken_lanes_are_counted(front);
        let at = first_free(front);
        assert forall|i: int| 0 <= i < first_free(occupied) implies #[trigger] occupied[i] by {
            if i < at {
                assert(front[i]);
            }
        }
        if at < front.len() {
            assert(!front[at]);
        }
    }
}

/// A task that came to a value has it reported, and succeeded exactly where nothing
/// was found against the value; one that came to an error has that reported, and
/// failed. There is an error exactly where there is no success.
pub proof fn law_outcomes_are_settled<T>(
    result: ExecutionResult<T>,
    outcome: Result<T, String>,
    verdict: Option<String>,
)
    requires
        settles(result, outcome, verdict),
    ensures
        result.report.success <==> outcome is Ok && verdict is None,
        result.report.error is None <==> result.report.success,
        result.value is Some <==> outcome is Ok,
        outcome matches Ok(value) ==> result.value == Some(value) && result.report.error == verdict,
        outcome matches Err(error) ==> result.report.error == Some(error),
{
}

/// A result from the pool tells what its task came to, and how long it waited only
/// where it did wait.
pub proof fn law_pooled_results_are_told<T>(
    execution_id: ExecutionId,
    lane_id: LaneId,
    started: SystemTime,
    queued_for: Span,
    waited: bool,
    duration: Span,
    outcome: Result<T, String>,
    result: ExecutionResult<T>,
)
    requires
        call_ensures(
            pooled_result::<T>,
            (execution_id, lane_id, started, queued_for, waited, duration, outcome),
            result,
        ),
    ensures
        result.report.execution_id == execution_id,
        result.report.lane_id == lane_id,
        result.report.started == started,
        result.report.duration == duration,
        result.report.queued_for == queued_for,
        waited ==> result.report.scheduling_gap == queued_for,
        !waited ==> result.report.scheduling_gap.nanos == 0,
        result.report.success <==> outcome is Ok,
        outcome matches Ok(value) ==> result.value == Some(value) && result.report.error is None,
        outcome matches Err(error) ==> result.value is None && result.report.error == Some(error),
{
}

/// The time that lanes are busy is the sum of what is credited for each execution:
/// its duration, as far as that can be counted.
pub proof fn law_credits_add_up<T>(
    results: Seq<ExecutionResult<T>>,
    result: ExecutionResult<T>,
    busy: int,
)
    ensures
        total_credited(results.push(result)) == total_credited(results) + credited(
            result.report.duration,
        ),
        total_credited(Seq::<ExecutionResult<T>>::empty()) == 0,
        result.report.duration.nanos <= u64::MAX ==> credited(result.report.duration)
            == result.report.duration.nanos,
        result.report.duration.nanos > u64::MAX ==> credited(result.report.duration) == u64::MAX,
        0 <= busy && busy + credited(result.report.duration) <= u64::MAX ==> busy_after(
            busy,
            credited(result.report.duration),
        ) == busy + credited(result.report.duration),
        0 <= busy <= u64::MAX && busy + credited(result.report.duration) > u64::MAX ==> busy_after(
            busy,
            credited(result.report.duration),
        ) == busy + credited(result.report.duration) - 0x1_0000_0000_0000_0000,
{
    assert(results.push(result).drop_last() =~= results);
}

/// A peak never goes down, and goes up exactly to what is more.
pub proof fn law_peaks_are_the_most(peak: int, occupied: int)
    ensures
        peak_after(peak, occupied) >= peak,
        peak_after(peak, occupied) >= occupied,
        peak_after(peak, occupied) == peak || peak_after(peak, occupied) == occupied,
{
}

/// Each execution of a batch is told of three times, in this order: when it is
/// queued, when it is started in its lane, and when it ends there, as completed
/// exactly where it is reported as a success.
pub proof fn law_executions_are_told_in_order<T>(
    run: SchedulerRun<T>,
    first: int,
    count: int,
    lanes: int,
    k: int,
)
    requires
        finished(run, first, count, lanes),
        0 <= first,
        first + count <= u64::MAX,
        0 <= k < count,
    ensures
        ({
            let report = run.results@[k].report;
            &&& report.execution_id.0 == first + k
            &&& report.lane_id.0 < lanes
            &&& report.scheduling_gap == report.queued_for
            &&& exists|q: int, s: int, e: int|
                {
                    &&& 0 <= q < s < e < run.events@.len()
                    &&& #[trigger] run.events@[q] == (ExecutionEvent::Queued {
                        execution_id: report.execution_id,
                    })
                    &&& #[trigger] run.events@[s] == (ExecutionEvent::Started {
                        execution_id: report.execution_id,
                        lane_id: report.lane_id,
                        queued_for: report.queued_for,
                    })
                    &&& (report.success ==> #[trigger] run.events@[e]
                        == (ExecutionEvent::Completed {
                        execution_id: report.execution_id,
                        lane_id: report.lane_id,
                        duration: report.duration,
                    }))
                    &&& (!report.success ==> run.events@[e] == (ExecutionEvent::Failed {
                        execution_id: report.execution_id,
                        lane_id: report.lane_id,
                        duration: report.duration,
                        error: report.error->0,
                    }))
                }
        }),
{
    let log = run.events@;
    let result = run.results@[k];
    assert(tells_of(log, result));
    assert(waited_in_queue(result));
    let (s, e) = choose|s: int, e: int|
        0 <= s < e < log.len() && #[trigger] log[s] == start_of(result) && #[trigger] log[e]
            == end_of(result);
    assert(log[k] == (ExecutionEvent::Queued { execution_id: ExecutionId((first + k) as u64) }));
    assert(result.report.execution_id == ExecutionId((first + k) as u64));
    if s < count {
        assert(log[s] is Queued);
    }
    assert(k < s);
}

/// An execution is labelled by its number, counted from one and written with at
/// least four digits, so that no two have one label.
pub proof fn law_labels_tell_executions_apart(
    a: ExecutionId,
    b: ExecutionId,
    label: String,
    other: String,
)
    requires
        a.0 < u64::MAX,
        b.0 < u64::MAX,
        call_ensures(ExecutionId::label, (&a,), label),
        call_ensures(ExecutionId::label, (&b,), other),
    ensures
        label@.len() >= 4,
        label@.len() > 4 ==> label@[0] != '0',
        number::read_number(label@, u64::MAX as nat) == Ok::<nat, number::NumberProblem>(
            (a.0 + 1) as nat,
        ),
        label@ == other@ <==> a == b,
{
    text::law_padding_adds_zeros(text::decimal((a.0 + 1) as nat), 4);
    text::law_padding_adds_zeros(text::decimal((b.0 + 1) as nat), 4);
    number::law_padded_numbers_are_read_back((a.0 + 1) as nat, 4, u64::MAX as nat);
    number::law_padded_numbers_are_read_back((b.0 + 1) as nat, 4, u64::MAX as nat);
    number::law_decimals_are_read_back((a.0 + 1) as nat, u64::MAX as nat);
}

/// A lane that is given out was free, and the first that was; there is none exactly
/// where all are taken. What is given out is taken from then on, and what is given
/// back is free, and no other lane changes.
pub proof fn law_lanes_are_given_out_and_back(
    scheduler: &mut PitScheduler,
    assigned: Option<LaneId>,
    returning: &mut PitScheduler,
    lane: LaneId,
)
    requires
        old(scheduler).wf(),
        call_ensures(PitScheduler::assign_lane, (scheduler,), assigned),
        call_ensures(PitScheduler::release_lane, (returning, lane), ()),
        lane.0 < old(returning).pool().len(),
    ensures
        assigned is None <==> forall|i: int|
            0 <= i < old(scheduler).width() ==> #[trigger] old(scheduler).pool()[i],
        assigned matches Some(given) ==> {
            &&& given.0 < old(scheduler).width()
            &&& !old(scheduler).pool()[given.0 as int]
            &&& final(scheduler).pool()[given.0 as int]
            &&& forall|i: int|
                0 <= i < given.0 ==> #[trigger] old(scheduler).pool()[i]
            &&& forall|i: int|
                0 <= i < old(scheduler).width() && i != given.0
                    ==> #[trigger] final(scheduler).pool()[i] == old(scheduler).pool()[i]
            &&& final(scheduler).waiting() == old(scheduler).waiting() - 1
            &&& final(scheduler).pool_peak() >= old(scheduler).pool_peak()
        },
        !final(returning).pool()[lane.0 as int],
        forall|i: int|
            0 <= i < old(returning).pool().len() && i != lane.0
                ==> #[trigger] final(returning).pool()[i] == old(returning).pool()[i],
        final(returning).waiting() == old(returning).waiting(),
{
    let pool = old(scheduler).pool();
    assert(pool.len() == old(scheduler).width());
    law_the_first_free_lane_is_given(pool);
    if assigned is None {
        assert forall|i: int| 0 <= i < pool.len() implies #[trigger] pool[i] by {
            assert(i < first_free(pool));
        }
    } else {
        assert(!pool[first_free(pool)]);
    }
}

/// Executions are numbered one after the other, and each who asks waits.
pub proof fn law_requests_are_numbered_in_order(
    scheduler: &mut PitScheduler,
    later: &mut PitScheduler,
    first: ExecutionId,
    second: ExecutionId,
)
    requires
        call_ensures(PitScheduler::request_lane, (scheduler,), first),
        *final(scheduler) == *old(later),
        call_ensures(PitScheduler::request_lane, (later,), second),
    ensures
        first.0 == old(scheduler).next_id(),
        second.0 == first.0 + 1,
        final(later).waiting() == old(scheduler).waiting() + 2,
        final(later).pool() == old(scheduler).pool(),
{
}

/// A batch hands its executions out in the order of their numbers, until none is
/// left. What a lane ends is what it was given, and it is free then.
pub proof fn law_batches_are_handed_out_in_order<T>(
    state: &mut RunState<T>,
    lane: LaneId,
    queued_for: Span,
    taken: Option<ExecutionId>,
    ending: &mut RunState<T>,
    started: SystemTime,
    duration: Span,
    outcome: Result<T, String>,
    verdict: Option<String>,
)
    requires
        lane.0 < old(state).lane_states().len(),
        call_ensures(RunState::<T>::start, (state, lane, queued_for), taken),
        taken is Some,
        *final(state) == *old(ending),
        call_ensures(
            RunState::<T>::finish,
            (ending, lane, started, duration, outcome, verdict),
            (),
        ),
    ensures
        (taken->0).0 == old(state).first() + old(state).taken(),
        old(state).taken() < old(state).size(),
        final(ending).taken() == old(state).taken() + 1,
        final(ending).lane_states()[lane.0 as int] is Free,
        final(ending).ended().len() == old(state).ended().len() + 1,
        ({
            let result = final(ending).ended().last();
            &&& result.report.execution_id == taken->0
            &&& result.report.lane_id == lane
            &&& result.report.duration == duration
            &&& result.report.started == started
            &&& (result.report.success <==> outcome is Ok && verdict is None)
            &&& (outcome matches Ok(value) ==> result.value == Some(value))
            &&& (outcome matches Err(error) ==> result.report.error == Some(error))
        }),
        final(ending).log().len() == old(state).log().len() + 2,
        final(ending).log()[old(state).log().len() as int] is Started,
        final(ending).log().last() is Completed <==> outcome is Ok && verdict is None,
{
}

/// A scheduler can be made exactly where it has a lane, and begins with nothing
/// taken, waiting or numbered.
pub proof fn law_schedulers_have_lanes(
    lane_count: usize,
    made: Result<PitScheduler, SchedulerError>,
)
    requires
        call_ensures(PitScheduler::new, (lane_count,), made),
    ensures
        made is Ok <==> lane_count > 0,
        made matches Ok(scheduler) ==> scheduler.width() == lane_count && scheduler.next_id() == 0
            && scheduler.waiting() == 0 && scheduler.busy() == 0 && scheduler.pool_peak() == 0
            && forall|i: int|
            0 <= i < lane_count ==> !#[trigger] scheduler.pool()[i],
{
}

/// The time that all lanes have is that of one, as often as there are lanes, as far
/// as that can be counted.
pub proof fn law_capacity_is_that_of_all_lanes(
    scheduler: PitScheduler,
    elapsed: Span,
    nanos: u128,
)
    requires
        call_ensures(PitScheduler::lane_capacity, (&scheduler, elapsed), nanos),
    ensures
        elapsed.nanos * scheduler.width() <= u128::MAX ==> nanos == elapsed.nanos
            * scheduler.width(),
        elapsed.nanos * scheduler.width() > u128::MAX ==> nanos == u128::MAX,
{
}

/// A scheduler of this machine has a lane for each thread that was detected, and one
/// where none was.
pub proof fn law_local_schedulers_use_every_thread(
    detected: Option<usize>,
    scheduler: PitScheduler,
)
    requires
        detected != Some(0usize),
        call_ensures(PitScheduler::local, (detected,), scheduler),
    ensures
        detected matches Some(threads) ==> scheduler.width() == threads,
        detected is None ==> scheduler.width() == 1,
        scheduler.next_id() == 0,
        scheduler.waiting() == 0,
{
}

/// What a scheduler tells of itself is how it stands: as many lanes run as are
/// taken, and each lane is shown as what it is.
pub proof fn law_snapshots_show_the_pool(scheduler: PitScheduler, snapshot: SchedulerSnapshot)
    requires
        scheduler.wf(),
        call_ensures(PitScheduler::shared_snapshot, (&scheduler,), snapshot),
    ensures
        snapshot.lane_count == scheduler.width(),
        snapshot.lanes@.len() == scheduler.pool().len(),
        snapshot.running == scheduler.pool().filter(|taken: bool| taken).len(),
        snapshot.queued == scheduler.waiting(),
        snapshot.peak_active == scheduler.pool_peak(),
        forall|i: int|
            0 <= i < snapshot.lanes@.len() ==> (#[trigger] snapshot.lanes@[i] is Free
                <==> !scheduler.pool()[i]),
{
    law_taken_lanes_are_counted(scheduler.pool());
}

/// One execution by itself runs in the first free lane under the next number, has no
/// gap, and leaves the lanes as they were.
pub proof fn law_single_executions_leave_no_trace<T, F>(
    scheduler: &mut PitScheduler,
    task: F,
    ran: Result<ExecutionResult<T>, SchedulerError>,
) where F: FnOnce(ExecutionId, LaneId) -> Result<T, String>
    requires
        call_ensures(PitScheduler::run_one::<T, F>, (scheduler, task), ran),
    ensures
        ran is Ok,
        ran->Ok_0.report.execution_id.0 == old(scheduler).next_id(),
        ran->Ok_0.report.lane_id.0 == first_free(old(scheduler).pool()),
        ran->Ok_0.report.scheduling_gap.nanos == 0,
        ran->Ok_0.report.success <==> ran->Ok_0.value is Some,
        ran->Ok_0.report.error is None <==> ran->Ok_0.report.success,
        final(scheduler).next_id() == old(scheduler).next_id() + 1,
        final(scheduler).pool() == old(scheduler).pool(),
        final(scheduler).waiting() == old(scheduler).waiting(),
        final(scheduler).pool_peak() >= old(scheduler).pool_peak(),
{
    let result = ran->Ok_0;
    assert(reports_plainly(task, result));
    let outcome = choose|outcome: Result<T, String>|
        {
            &&& #[trigger] settles(result, outcome, None)
            &&& call_ensures(
                task,
                (result.report.execution_id, result.report.lane_id),
                outcome,
            )
        };
    law_outcomes_are_settled(result, outcome, None);
}

/// A batch is run exactly where it asks for at least one execution. All of them end,
/// in the order of their numbers, and no lane runs any more then.
pub proof fn law_batches_are_run_whole<T, F, H>(
    scheduler: &mut PitScheduler,
    count: usize,
    task: F,
    host: H,
    ran: Result<SchedulerRun<T>, SchedulerError>,
) where
    T: Send + Sync + 'static,
    F: Fn(ExecutionId, LaneId) -> Result<T, String> + Send + Sync + 'static,
    H: LaneHost,

    requires
        call_ensures(
            PitScheduler::run_many_detailed::<T, F, H>,
            (scheduler, count, task, &host),
            ran,
        ),
    ensures
        ran is Ok <==> count > 0,
        ran matches Ok(run) ==> {
            &&& run.results@.len() == count
            &&& run.snapshot.running == 0
            &&& run.snapshot.queued == 0
            &&& run.snapshot.completed + run.snapshot.failed == count
            &&& run.snapshot.completed == run.results@.filter(
                |result: ExecutionResult<T>| result.report.success,
            ).len()
            &&& run.events@.len() == 3 * count
            &&& forall|i: int|
                0 <= i < count ==> (#[trigger] run.results@[i]).report.execution_id.0 == old(
                    scheduler,
                ).next_id() + i && run.results@[i].report.lane_id.0 < old(scheduler).width()
        },
        final(scheduler).next_id() == old(scheduler).next_id() + count,
        final(scheduler).pool() == old(scheduler).pool(),
{
    if let Ok(run) = ran {
        law_successes_are_counted(run.results@);
    }
}

} // verus!

//! The lanes of a batch, each with a worker of its own.
//!
//! A batch has one [`LaneWorker`] for each lane. The workers share the state of
//! the batch behind a lock, and a [`LaneHost`] serves them: all at the same time
//! where it has threads, or one after the other. Whatever the host leaves undone
//! is done by the call that runs the batch.

use std::sync::Arc;
use std::time::{Instant, SystemTime};

use vstd::prelude::*;
use vstd::rwlock::{RwLock, RwLockPredicate};

use crate::clock::Span;
use crate::scheduler;
use crate::scheduler::{ExecutionId, LaneId, LaneState, RunState};

verus! {

/// What every state of a batch keeps: its size, its lanes, and that each result
/// reports a run of the task.
pub struct BatchRule<F, C> {
    task: Ghost<F>,
    classify: Ghost<C>,
    first: Ghost<int>,
    count: Ghost<int>,
    width: Ghost<int>,
}

impl<F, C> BatchRule<F, C> {
    /// The rule of a batch of so many executions on so many lanes.
    pub closed spec fn of(task: F, classify: C, first: int, count: int, width: int) -> Self {
        BatchRule {
            task: Ghost(task),
            classify: Ghost(classify),
            first: Ghost(first),
            count: Ghost(count),
            width: Ghost(width),
        }
    }
}

/// Whether a state of a batch is sound, has this size and so many lanes, and each
/// of its results reports a run of the task.
pub open spec fn keeps<T, F, C>(
    state: RunState<T>,
    task: F,
    classify: C,
    first: int,
    count: int,
    width: int,
) -> bool where
    F: Fn(ExecutionId, LaneId) -> Result<T, String>,
    C: Fn(&T) -> Option<String>,
 {
    &&& state.wf()
    &&& state.first() == first
    &&& state.size() == count
    &&& state.lane_states().len() == width
    &&& forall|i: int|
        0 <= i < state.ended().len() ==> scheduler::reports(
            task,
            classify,
            #[trigger] state.ended()[i],
        )
}

impl<T, F, C> RwLockPredicate<Option<RunState<T>>> for BatchRule<F, C> where
    F: Fn(ExecutionId, LaneId) -> Result<T, String>,
    C: Fn(&T) -> Option<String>,
 {
    closed spec fn inv(self, state: Option<RunState<T>>) -> bool {
        state matches Some(state) ==> keeps(
            state,
            self.task@,
            self.classify@,
            self.first@,
            self.count@,
            self.width@,
        )
    }
}

/// The state of a batch that its workers share; there is none once the batch is
/// closed.
pub type SharedBatch<T, F, C> = Arc<RwLock<Option<RunState<T>>, BatchRule<F, C>>>;

/// Whether a task can be called for every execution of a batch on every lane, and
/// the classifier on every value.
pub open spec fn callable<T, F, C>(
    task: F,
    classify: C,
    first: int,
    count: int,
    width: int,
) -> bool where
    F: Fn(ExecutionId, LaneId) -> Result<T, String>,
    C: Fn(&T) -> Option<String>,
 {
    &&& forall|id: ExecutionId, lane: LaneId|
        first <= id.0 < first + count && lane.0 < width ==> #[trigger] call_requires(
            task,
            (id, lane),
        )
    &&& forall|value: &T| #[trigger] call_requires(classify, (value,))
}

/// One run of a task: when it began, how long it took, what it returned, and the
/// verdict on a returned value.
pub struct Attempt<T> {
    pub started: SystemTime,
    pub duration: Span,
    pub outcome: Result<T, String>,
    pub verdict: Option<String>,
}

/// Runs a task once and classifies what it returns.
pub fn attempt<T, F, C>(task: &F, classify: &C, execution_id: ExecutionId, lane_id: LaneId) -> (made:
    Attempt<T>) where
    F: Fn(ExecutionId, LaneId) -> Result<T, String>,
    C: Fn(&T) -> Option<String>,

    requires
        call_requires(*task, (execution_id, lane_id)),
        forall|value: &T| #[trigger] call_requires(*classify, (value,)),
    ensures
        call_ensures(*task, (execution_id, lane_id), made.outcome),
        match made.outcome {
            Ok(value) => call_ensures(*classify, (&value,), made.verdict),
            Err(_) => made.verdict is None,
        },
{
    let started = SystemTime::now();
    let timer = Instant::now();
    let outcome = (*task)(execution_id, lane_id);
    let duration = Span::since(&timer);
    let verdict = match &outcome {
        Ok(value) => (*classify)(value),
        Err(_) => None,
    };
    Attempt { started, duration, outcome, verdict }
}

/// Gives an execution back with what came of it.
fn settle<T, F, C>(
    state: &mut RunState<T>,
    lane_id: LaneId,
    made: Attempt<T>,
    task: &F,
    classify: &C,
    Ghost(first): Ghost<int>,
    Ghost(count): Ghost<int>,
    Ghost(width): Ghost<int>,
) where F: Fn(ExecutionId, LaneId) -> Result<T, String>, C: Fn(&T) -> Option<String>
    requires
        keeps(*old(state), *task, *classify, first, count, width),
        lane_id.0 < width,
        old(state).lane_states()[lane_id.0 as int] is Running,
        call_ensures(
            *task,
            (old(state).lane_states()[lane_id.0 as int]->execution_id, lane_id),
            made.outcome,
        ),
        match made.outcome {
            Ok(value) => call_ensures(*classify, (&value,), made.verdict),
            Err(_) => made.verdict is None,
        },
    ensures
        keeps(*final(state), *task, *classify, first, count, width),
        final(state).taken() == old(state).taken(),
        final(state).lane_states() == old(state).lane_states().update(
            lane_id.0 as int,
            LaneState::Free,
        ),
{
    let ghost before = state.ended();
    let ghost outcome = made.outcome;
    let ghost verdict = made.verdict;
    state.finish(lane_id, made.started, made.duration, made.outcome, made.verdict);
    proof {
        let result = state.ended().last();
        assert(scheduler::settles(result, outcome, verdict));
        assert(scheduler::reports(*task, *classify, result));
        assert forall|i: int| 0 <= i < state.ended().len() implies scheduler::reports(
            *task,
            *classify,
            #[trigger] state.ended()[i],
        ) by {
            if i < before.len() {
                assert(state.ended()[i] == before[i]);
            }
        }
    }
}

/// What serves one lane of a batch.
#[verifier::reject_recursive_types(T)]
#[verifier::reject_recursive_types(F)]
#[verifier::reject_recursive_types(C)]
pub struct LaneWorker<T, F, C> where
    F: Fn(ExecutionId, LaneId) -> Result<T, String>,
    C: Fn(&T) -> Option<String>,
 {
    shared: SharedBatch<T, F, C>,
    task: Arc<F>,
    classify: Arc<C>,
    lane_id: LaneId,
    count: usize,
    queued_at: Instant,
    first: Ghost<int>,
    width: Ghost<int>,
}

impl<T, F, C> LaneWorker<T, F, C> where
    F: Fn(ExecutionId, LaneId) -> Result<T, String>,
    C: Fn(&T) -> Option<String>,
 {
    #[verifier::type_invariant]
    spec fn sound(self) -> bool {
        &&& self.lane_id.0 < self.width@
        &&& callable(*self.task, *self.classify, self.first@, self.count as int, self.width@)
        &&& self.shared.pred() == BatchRule::of(
            *self.task,
            *self.classify,
            self.first@,
            self.count as int,
            self.width@,
        )
    }

    /// The lane that is served.
    pub closed spec fn serves(&self) -> LaneId {
        self.lane_id
    }

    /// The lane that is served.
    pub fn lane(&self) -> (lane: LaneId)
        ensures
            lane == self.serves(),
    {
        self.lane_id
    }

    /// Serves the lane until the queue is empty: takes the next execution, runs
    /// its task while the other lanes go on, and gives it back. What the state of
    /// the batch keeps, it keeps at every step.
    pub fn serve(self) {
        proof {
            use_type_invariant(&self);
        }
        let mut served: usize = 0;
        while served < self.count
            invariant
                self.sound(),
            decreases self.count - served,
        {
            let execution_id = match self.take() {
                Some(execution_id) => execution_id,
                None => {
                    return;
                },
            };
            let made = attempt(&*self.task, &*self.classify, execution_id, self.lane_id);
            self.give_back(execution_id, made);
            served += 1;
        }
    }

    /// Takes the next execution for the lane, where there is one and the lane is
    /// free.
    fn take(&self) -> (taken: Option<ExecutionId>)
        requires
            self.sound(),
        ensures
            taken matches Some(id) ==> self.first@ <= id.0 < self.first@ + self.count,
    {
        let (state, lock) = self.shared.acquire_write();
        match state {
            None => {
                lock.release_write(None);
                None
            },
            Some(mut state) => {
                let free = match state.lane_state(self.lane_id) {
                    LaneState::Free => true,
                    LaneState::Running { .. } => false,
                };
                let taken = if free {
                    let queued_for = Span::since(&self.queued_at);
                    state.start(self.lane_id, queued_for)
                } else {
                    None
                };
                proof {
                    scheduler::law_counts_agree(state);
                }
                lock.release_write(Some(state));
                taken
            },
        }
    }

    /// Gives an execution back, where the lane still runs it.
    fn give_back(&self, execution_id: ExecutionId, made: Attempt<T>)
        requires
            self.sound(),
            call_ensures(*self.task, (execution_id, self.lane_id), made.outcome),
            match made.outcome {
                Ok(value) => call_ensures(*self.classify, (&value,), made.verdict),
                Err(_) => made.verdict is None,
            },
    {
        let (state, lock) = self.shared.acquire_write();
        match state {
            None => {
                lock.release_write(None);
            },
            Some(mut state) => {
                let runs_it = match state.lane_state(self.lane_id) {
                    LaneState::Running { execution_id: running } => running.0 == execution_id.0,
                    LaneState::Free => false,
                };
                if runs_it {
                    settle(
                        &mut state,
                        self.lane_id,
                        made,
                        &*self.task,
                        &*self.classify,
                        Ghost(self.first@),
                        Ghost(self.count as int),
                        Ghost(self.width@),
                    );
                }
                lock.release_write(Some(state));
            },
        }
    }
}

/// Where the lanes of a batch are served.
pub trait LaneHost {
    /// Serves each worker, at the same time or not, and comes back when all are
    /// done.
    fn run_lanes<T, F, C>(&self, workers: Vec<LaneWorker<T, F, C>>) where
        T: Send + Sync + 'static,
        F: Fn(ExecutionId, LaneId) -> Result<T, String> + Send + Sync + 'static,
        C: Fn(&T) -> Option<String> + Send + Sync + 'static,
    ;
}

/// The calling thread, which serves the lanes one after the other.
pub struct InTurn;

impl LaneHost for InTurn {
    fn run_lanes<T, F, C>(&self, workers: Vec<LaneWorker<T, F, C>>) where
        T: Send + Sync + 'static,
        F: Fn(ExecutionId, LaneId) -> Result<T, String> + Send + Sync + 'static,
        C: Fn(&T) -> Option<String> + Send + Sync + 'static,
     {
        let mut workers = workers;
        while workers.len() > 0
            decreases workers@.len(),
        {
            let worker = workers.remove(0);
            worker.serve();
        }
    }
}

/// Runs a batch on a host to its end.
pub(crate) fn run_batch<T, F, C, H>(
    state: RunState<T>,
    lane_count: usize,
    first_id: u64,
    count: usize,
    task: F,
    classify: C,
    host: &H,
) -> (ended: RunState<T>) where
    T: Send + Sync + 'static,
    F: Fn(ExecutionId, LaneId) -> Result<T, String> + Send + Sync + 'static,
    C: Fn(&T) -> Option<String> + Send + Sync + 'static,
    H: LaneHost,

    requires
        keeps(state, task, classify, first_id as int, count as int, lane_count as int),
        callable(task, classify, first_id as int, count as int, lane_count as int),
        lane_count > 0,
        first_id + count <= u64::MAX,
    ensures
        keeps(ended, task, classify, first_id as int, count as int, lane_count as int),
        ended.taken() == count,
        forall|a: int| 0 <= a < lane_count ==> #[trigger] ended.lane_states()[a] is Free,
{
    let queued_at = Instant::now();
    let ghost rule = BatchRule::of(
        task,
        classify,
        first_id as int,
        count as int,
        lane_count as int,
    );
    let task = Arc::new(task);
    let classify = Arc::new(classify);
    let shared: SharedBatch<T, F, C> = Arc::new(RwLock::new(Some(state), Ghost(rule)));
    let mut workers: Vec<LaneWorker<T, F, C>> = Vec::new();
    let mut lane: usize = 0;
    while lane < lane_count
        invariant
            lane <= lane_count,
            callable(*task, *classify, first_id as int, count as int, lane_count as int),
            shared.pred() == BatchRule::of(
                *task,
                *classify,
                first_id as int,
                count as int,
                lane_count as int,
            ),
        decreases lane_count - lane,
    {
        workers.push(
            LaneWorker {
                shared: Arc::clone(&shared),
                task: Arc::clone(&task),
                classify: Arc::clone(&classify),
                lane_id: LaneId(lane),
                count,
                queued_at,
                first: Ghost(first_id as int),
                width: Ghost(lane_count as int),
            },
        );
        lane += 1;
    }
    host.run_lanes(workers);
    let (left, lock) = shared.acquire_write();
    lock.release_write(None);
    // The batch is closed here and nowhere else, so there is a state.
    let mut state = match left {
        Some(state) => state,
        None => RunState::new(lane_count, first_id, count),
    };
    complete(&mut state, lane_count, &*task, &*classify, &queued_at, Ghost(first_id as int), count);
    state
}

/// Does what the host has left: the executions that lanes were left with, and
/// those that are still queued.
fn complete<T, F, C>(
    state: &mut RunState<T>,
    lane_count: usize,
    task: &F,
    classify: &C,
    queued_at: &Instant,
    Ghost(first): Ghost<int>,
    count: usize,
) where F: Fn(ExecutionId, LaneId) -> Result<T, String>, C: Fn(&T) -> Option<String>
    requires
        keeps(*old(state), *task, *classify, first, count as int, lane_count as int),
        callable(*task, *classify, first, count as int, lane_count as int),
        lane_count > 0,
    ensures
        keeps(*final(state), *task, *classify, first, count as int, lane_count as int),
        final(state).taken() == count,
        forall|a: int| 0 <= a < lane_count ==> #[trigger] final(state).lane_states()[a] is Free,
{
    let mut lane: usize = 0;
    while lane < lane_count
        invariant
            lane <= lane_count,
            keeps(*state, *task, *classify, first, count as int, lane_count as int),
            callable(*task, *classify, first, count as int, lane_count as int),
            forall|a: int| 0 <= a < lane ==> #[trigger] state.lane_states()[a] is Free,
        decreases lane_count - lane,
    {
        let lane_id = LaneId(lane);
        if let LaneState::Running { execution_id } = state.lane_state(lane_id) {
            proof {
                assert(scheduler::is_running(*state, execution_id.0 as int));
                scheduler::law_every_execution_is_accounted_for(*state, execution_id.0 as int);
                scheduler::law_counts_agree(*state);
            }
            let made = attempt(task, classify, execution_id, lane_id);
            settle(
                state,
                lane_id,
                made,
                task,
                classify,
                Ghost(first),
                Ghost(count as int),
                Ghost(lane_count as int),
            );
        }
        lane += 1;
    }
    let lane_id = LaneId(0);
    loop
        invariant
            lane_id == LaneId(0),
            lane_count > 0,
            keeps(*state, *task, *classify, first, count as int, lane_count as int),
            callable(*task, *classify, first, count as int, lane_count as int),
            forall|a: int| 0 <= a < lane_count ==> #[trigger] state.lane_states()[a] is Free,
        ensures
            state.taken() == count,
        decreases count - state.taken(),
    {
        let queued_for = Span::since(queued_at);
        proof {
            scheduler::law_counts_agree(*state);
        }
        let execution_id = match state.start(lane_id, queued_for) {
            Some(execution_id) => execution_id,
            None => {
                break;
            },
        };
        let made = attempt(task, classify, execution_id, lane_id);
        settle(
            state,
            lane_id,
            made,
            task,
            classify,
            Ghost(first),
            Ghost(count as int),
            Ghost(lane_count as int),
        );
    }
}

} // verus!

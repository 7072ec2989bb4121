//! How an execution ends: limits, interruption and the status that follows.

use std::sync::atomic::{AtomicBool, Ordering};
use std::sync::Arc;
use std::time::{Instant, SystemTime};

use vstd::prelude::*;

use crate::clock::Span;
use crate::failure::Failure;
use crate::text;
use crate::text::{concat2, decimal_string};

verus! {

/// The status of one execution.
#[derive(Debug, Clone, Copy, PartialEq, Eq, Structural)]
pub enum ExecutionStatus {
    Completed,
    GuestExitNonZero,
    GuestTrap,
    TimedOut,
    Cancelled,
    MemoryLimitExceeded,
    RuntimeError,
}

impl ExecutionStatus {
    /// The name of the status.
    pub open spec fn spelled(&self) -> Seq<char> {
        match *self {
            ExecutionStatus::Completed => "Completed"@,
            ExecutionStatus::GuestExitNonZero => "GuestExitNonZero"@,
            ExecutionStatus::GuestTrap => "GuestTrap"@,
            ExecutionStatus::TimedOut => "TimedOut"@,
            ExecutionStatus::Cancelled => "Cancelled"@,
            ExecutionStatus::MemoryLimitExceeded => "MemoryLimitExceeded"@,
            ExecutionStatus::RuntimeError => "RuntimeError"@,
        }
    }

    /// The name of the status.
    pub fn name(&self) -> (name: String)
        ensures
            name@ == self.spelled(),
    {
        match self {
            ExecutionStatus::Completed => "Completed".to_owned(),
            ExecutionStatus::GuestExitNonZero => "GuestExitNonZero".to_owned(),
            ExecutionStatus::GuestTrap => "GuestTrap".to_owned(),
            ExecutionStatus::TimedOut => "TimedOut".to_owned(),
            ExecutionStatus::Cancelled => "Cancelled".to_owned(),
            ExecutionStatus::MemoryLimitExceeded => "MemoryLimitExceeded".to_owned(),
            ExecutionStatus::RuntimeError => "RuntimeError".to_owned(),
        }
    }
}

/// A request to stop that is shared between its clones. Whoever holds one can
/// cancel at any moment, so nothing is said of what another reads.
#[derive(Debug)]
pub struct CancellationToken {
    cancelled: Arc<AtomicBool>,
}

impl CancellationToken {
    /// A token that nobody has cancelled.
    pub fn new() -> CancellationToken {
        CancellationToken { cancelled: Arc::new(AtomicBool::new(false)) }
    }

    /// Cancels, for every clone of the token.
    pub fn cancel(&self) {
        self.cancelled.store(true, Ordering::Release);
    }

    /// Whether some clone of the token was cancelled.
    pub fn is_cancelled(&self) -> bool {
        self.cancelled.load(Ordering::Acquire)
    }
}

impl Default for CancellationToken {
    fn default() -> Self {
        CancellationToken::new()
    }
}

impl Clone for CancellationToken {
    /// The same token once more: who cancels one, cancels the other.
    fn clone(&self) -> (copy: Self)
        ensures
            copy == *self,
    {
        CancellationToken { cancelled: Arc::clone(&self.cancelled) }
    }
}

/// Why an execution was interrupted, if it was.
#[derive(Debug, Clone, Copy, PartialEq, Eq, Structural)]
pub enum ControlSignal {
    Clear,
    TimedOut,
    Cancelled,
}

/// Whether a deadline has passed. Without a timeout there is none.
pub open spec fn past_deadline(timeout: Option<Span>, elapsed: Span) -> bool {
    timeout matches Some(limit) && elapsed.nanos >= limit.nanos
}

/// What watches one execution and may interrupt it.
pub struct ExecutionControl {
    token: CancellationToken,
    begun: Instant,
    timeout: Option<Span>,
    signal: ControlSignal,
}

impl ExecutionControl {
    /// Why the execution was interrupted so far.
    pub closed spec fn raised(&self) -> ControlSignal {
        self.signal
    }

    /// How long the execution may take.
    pub closed spec fn limit(&self) -> Option<Span> {
        self.timeout
    }

    /// The token that is read, and the moment that the execution began.
    pub closed spec fn origin(&self) -> (CancellationToken, Instant) {
        (self.token, self.begun)
    }

    /// Whether this is what is decided, and kept, for an execution that was
    /// cancelled or not and has taken so long. It goes on until the next tick of
    /// the epoch, or is interrupted for a reason that is kept: a cancellation
    /// comes before a timeout.
    pub open spec fn decided(
        &self,
        cancelled: bool,
        elapsed: Span,
        ticks: Option<u64>,
        kept: ExecutionControl,
    ) -> bool {
        &&& kept.limit() == self.limit()
        &&& kept.origin() == self.origin()
        &&& if cancelled {
            ticks is None && kept.raised() == ControlSignal::Cancelled
        } else if past_deadline(self.limit(), elapsed) {
            ticks is None && kept.raised() == ControlSignal::TimedOut
        } else {
            ticks == Some(1u64) && kept.raised() == self.raised()
        }
    }

    /// Watches an execution that begins now.
    pub fn new(token: CancellationToken, timeout: Option<Span>) -> (control: ExecutionControl)
        ensures
            control.origin().0 == token,
            control.raised() == ControlSignal::Clear,
            control.limit() == timeout,
    {
        ExecutionControl { token, begun: Instant::now(), timeout, signal: ControlSignal::Clear }
    }

    /// Decides whether the execution goes on, by whether it was cancelled and
    /// how long it has taken.
    pub fn observe(&mut self, cancelled: bool, elapsed: Span) -> (ticks: Option<u64>)
        ensures
            old(self).decided(cancelled, elapsed, ticks, *final(self)),
            ticks is Some <==> !cancelled && (old(self).limit() matches Some(limit) ==> elapsed.nanos
                < limit.nanos),
    {
        if cancelled {
            self.signal = ControlSignal::Cancelled;
            return None;
        }
        let passed = match &self.timeout {
            Some(limit) => elapsed.nanos >= limit.nanos,
            None => false,
        };
        if passed {
            self.signal = ControlSignal::TimedOut;
            return None;
        }
        Some(1)
    }

    /// Decides whether the execution goes on, by what the token and the clock
    /// show. That is not said, but whatever they show, an execution that may take
    /// no time at all does not go on, and one without a timeout does not time out.
    pub fn check(&mut self) -> (ticks: Option<u64>)
        ensures
            exists|cancelled: bool, elapsed: Span| #[trigger]
                old(self).decided(cancelled, elapsed, ticks, *final(self)),
    {
        let cancelled = self.token.is_cancelled();
        let elapsed = Span::since(&self.begun);
        self.observe(cancelled, elapsed)
    }

    /// Why the execution was interrupted, if it was.
    pub fn signal(&self) -> (signal: ControlSignal)
        ensures
            signal == self.raised(),
    {
        self.signal
    }
}

/// The limit on the memory of one execution, and whether the guest asked for
/// more.
#[derive(Debug)]
pub struct RuntimeLimiter {
    pub memory_limit: Option<usize>,
    pub memory_exceeded: bool,
}

/// Whether a limit refuses a memory of so many bytes.
pub open spec fn over_limit(limit: Option<usize>, desired: usize) -> bool {
    limit matches Some(most) && desired > most
}

impl RuntimeLimiter {
    /// A limit that nobody has asked to go over.
    pub fn new(memory_limit: Option<usize>) -> (limiter: RuntimeLimiter)
        ensures
            limiter.memory_limit == memory_limit,
            !limiter.memory_exceeded,
    {
        RuntimeLimiter { memory_limit, memory_exceeded: false }
    }

    /// A memory wants to grow. More than the limit is refused, which is
    /// remembered.
    pub fn admit_memory(&mut self, desired: usize) -> (admitted: Result<bool, Failure>)
        ensures
            final(self).memory_limit == old(self).memory_limit,
            admitted is Ok <==> (old(self).memory_limit matches Some(limit) ==> desired <= limit),
            final(self).memory_exceeded == (old(self).memory_exceeded || over_limit(
                old(self).memory_limit,
                desired,
            )),
            if over_limit(old(self).memory_limit, desired) {
                admitted matches Err(failure) && failure.says(
                    "linear memory growth to "@ + text::decimal(desired as nat)
                        + " bytes exceeds configured limit of "@ + text::decimal(
                        old(self).memory_limit->0 as nat,
                    ) + " bytes"@,
                )
            } else {
                admitted == Ok::<bool, Failure>(true)
            },
    {
        if let Some(limit) = self.memory_limit {
            if desired > limit {
                self.memory_exceeded = true;
                let wanted = decimal_string(desired as u64);
                let most = decimal_string(limit as u64);
                let mut message = concat2("linear memory growth to ", wanted.as_str());
                message = concat2(message.as_str(), " bytes exceeds configured limit of ");
                message = concat2(message.as_str(), most.as_str());
                message = concat2(message.as_str(), " bytes");
                return Err(Failure::of(message));
            }
        }
        Ok(true)
    }
}

/// What came back from the guest.
#[derive(Debug)]
pub enum GuestOutcome {
    /// The guest could not be started.
    NotStarted(String),
    /// The guest came back.
    Returned,
    /// The guest came back and said that it failed.
    ReturnedFailure,
    /// The guest left with an exit code; the text says so.
    Exited { code: i32, message: String },
    /// The guest was stopped.
    Trapped(String),
}

/// The status, the exit code and the error of an execution.
#[derive(Debug)]
pub struct Verdict {
    pub status: ExecutionStatus,
    pub exit_code: Option<i32>,
    pub error: Option<String>,
}

impl Verdict {
    /// The verdict over texts.
    pub open spec fn parts(&self) -> (ExecutionStatus, Option<i32>, Option<Seq<char>>) {
        (self.status, self.exit_code, text::optional_text(self.error))
    }
}

/// The status of an execution whose guest could not be started.
pub open spec fn unstarted_status(signal: ControlSignal, memory_exceeded: bool) -> ExecutionStatus {
    match signal {
        ControlSignal::TimedOut => ExecutionStatus::TimedOut,
        ControlSignal::Cancelled => ExecutionStatus::Cancelled,
        ControlSignal::Clear => if memory_exceeded {
            ExecutionStatus::MemoryLimitExceeded
        } else {
            ExecutionStatus::RuntimeError
        },
    }
}

/// The status of an execution whose guest could not be started.
pub fn status_for_error(signal: ControlSignal, memory_exceeded: bool) -> (status: ExecutionStatus)
    ensures
        status == unstarted_status(signal, memory_exceeded),
{
    match signal {
        ControlSignal::TimedOut => ExecutionStatus::TimedOut,
        ControlSignal::Cancelled => ExecutionStatus::Cancelled,
        ControlSignal::Clear => if memory_exceeded {
            ExecutionStatus::MemoryLimitExceeded
        } else {
            ExecutionStatus::RuntimeError
        },
    }
}

/// The verdict on an execution. Where the guest was started, an interruption
/// comes first, then a memory limit, then what the guest did.
pub open spec fn verdict_on(
    outcome: GuestOutcome,
    signal: ControlSignal,
    memory_exceeded: bool,
) -> (ExecutionStatus, Option<i32>, Option<Seq<char>>) {
    match outcome {
        GuestOutcome::NotStarted(message) => (
            unstarted_status(signal, memory_exceeded),
            None,
            Some(message@),
        ),
        _ => match signal {
            ControlSignal::TimedOut => (
                ExecutionStatus::TimedOut,
                None,
                Some("execution exceeded its timeout"@),
            ),
            ControlSignal::Cancelled => (
                ExecutionStatus::Cancelled,
                None,
                Some("execution was cancelled"@),
            ),
            ControlSignal::Clear => if memory_exceeded {
                (
                    ExecutionStatus::MemoryLimitExceeded,
                    None,
                    Some("execution exceeded its memory limit"@),
                )
            } else {
                match outcome {
                    GuestOutcome::ReturnedFailure => (
                        ExecutionStatus::GuestExitNonZero,
                        Some(1i32),
                        Some("guest exited with a non-zero status"@),
                    ),
                    GuestOutcome::Exited { code, message } => if code == 0 {
                        (ExecutionStatus::Completed, Some(0i32), None)
                    } else {
                        (ExecutionStatus::GuestExitNonZero, Some(code), Some(message@))
                    },
                    GuestOutcome::Trapped(message) => (
                        ExecutionStatus::GuestTrap,
                        None,
                        Some(message@),
                    ),
                    _ => (ExecutionStatus::Completed, Some(0i32), None),
                }
            },
        },
    }
}

/// The verdict on an execution.
pub fn judge(outcome: GuestOutcome, signal: ControlSignal, memory_exceeded: bool) -> (verdict:
    Verdict)
    ensures
        verdict.parts() == verdict_on(outcome, signal, memory_exceeded),
        signal == ControlSignal::Clear && !memory_exceeded ==> {
            &&& (verdict.status == ExecutionStatus::Completed <==> (outcome is Returned || (
            outcome matches GuestOutcome::Exited { code, .. } && code == 0)))
            &&& (outcome matches GuestOutcome::Exited { code, .. } ==> verdict.exit_code == Some(
                code,
            ))
        },
        verdict.status == ExecutionStatus::TimedOut <==> signal == ControlSignal::TimedOut,
        verdict.status == ExecutionStatus::Cancelled <==> signal == ControlSignal::Cancelled,
{
    if let GuestOutcome::NotStarted(message) = outcome {
        return Verdict {
            status: status_for_error(signal, memory_exceeded),
            exit_code: None,
            error: Some(message),
        };
    }
    match signal {
        ControlSignal::TimedOut => Verdict {
            status: ExecutionStatus::TimedOut,
            exit_code: None,
            error: Some("execution exceeded its timeout".to_owned()),
        },
        ControlSignal::Cancelled => Verdict {
            status: ExecutionStatus::Cancelled,
            exit_code: None,
            error: Some("execution was cancelled".to_owned()),
        },
        ControlSignal::Clear => if memory_exceeded {
            Verdict {
                status: ExecutionStatus::MemoryLimitExceeded,
                exit_code: None,
                error: Some("execution exceeded its memory limit".to_owned()),
            }
        } else {
            match outcome {
                GuestOutcome::ReturnedFailure => Verdict {
                    status: ExecutionStatus::GuestExitNonZero,
                    exit_code: Some(1),
                    error: Some("guest exited with a non-zero status".to_owned()),
                },
                GuestOutcome::Exited { code, message } => if code == 0 {
                    Verdict { status: ExecutionStatus::Completed, exit_code: Some(0), error: None }
                } else {
                    Verdict {
                        status: ExecutionStatus::GuestExitNonZero,
                        exit_code: Some(code),
                        error: Some(message),
                    }
                },
                GuestOutcome::Trapped(message) => Verdict {
                    status: ExecutionStatus::GuestTrap,
                    exit_code: None,
                    error: Some(message),
                },
                _ => Verdict {
                    status: ExecutionStatus::Completed,
                    exit_code: Some(0),
                    error: None,
                },
            }
        },
    }
}

/// Whether a status, an exit code and an error fit together: an execution has
/// no error exactly where it completed, a completed one left with zero, one
/// that left with another code has that code, and no other has a code.
pub open spec fn consistent(
    status: ExecutionStatus,
    exit_code: Option<i32>,
    error: Option<Seq<char>>,
) -> bool {
    &&& (error is None <==> status == ExecutionStatus::Completed)
    &&& (exit_code == Some(0i32) <==> status == ExecutionStatus::Completed)
    &&& (exit_code is Some <==> status == ExecutionStatus::Completed || status
        == ExecutionStatus::GuestExitNonZero)
}

/// Every verdict is consistent, whatever the guest did.
pub proof fn law_verdicts_are_consistent(
    outcome: GuestOutcome,
    signal: ControlSignal,
    memory_exceeded: bool,
)
    ensures
        ({
            let (status, exit_code, error) = verdict_on(outcome, signal, memory_exceeded);
            consistent(status, exit_code, error)
        }),
{
}

/// An interruption is never reported as a success or as a failure of the
/// guest, and a guest that was not interrupted is never reported as such.
pub proof fn law_interruptions_decide(
    outcome: GuestOutcome,
    signal: ControlSignal,
    memory_exceeded: bool,
)
    ensures
        ({
            let (status, _, _) = verdict_on(outcome, signal, memory_exceeded);
            &&& (status == ExecutionStatus::TimedOut <==> signal == ControlSignal::TimedOut)
            &&& (status == ExecutionStatus::Cancelled <==> signal == ControlSignal::Cancelled)
            &&& (status == ExecutionStatus::MemoryLimitExceeded <==> signal == ControlSignal::Clear
                && memory_exceeded)
        }),
{
}

/// A guest that was started, and neither interrupted nor over its memory limit,
/// is reported by what it did. It completed exactly where it came back without
/// a failure or left with zero, and whatever code it left with is the code that
/// is reported. What it said of its end stands in the error.
pub proof fn law_guests_are_reported_by_what_they_did(outcome: GuestOutcome)
    requires
        !(outcome is NotStarted),
    ensures
        ({
            let (status, exit_code, error) = verdict_on(outcome, ControlSignal::Clear, false);
            &&& (status == ExecutionStatus::Completed <==> (outcome is Returned || (
            outcome matches GuestOutcome::Exited { code, .. } && code == 0)))
            &&& (status == ExecutionStatus::GuestTrap <==> outcome is Trapped)
            &&& (outcome matches GuestOutcome::Exited { code, message } ==> {
                &&& exit_code == Some(code)
                &&& (status == ExecutionStatus::Completed <==> code == 0)
                &&& (status == ExecutionStatus::GuestExitNonZero <==> code != 0)
                &&& (code != 0 ==> error == Some(message@))
            })
            &&& (outcome is Returned ==> exit_code == Some(0i32))
            &&& (outcome is ReturnedFailure ==> {
                &&& status == ExecutionStatus::GuestExitNonZero
                &&& exit_code == Some(1i32)
                &&& error == Some("guest exited with a non-zero status"@)
            })
            &&& (outcome matches GuestOutcome::Trapped(message) ==> {
                &&& exit_code is None
                &&& error == Some(message@)
            })
        }),
{
}

/// A guest that could not be started never completed, left with no code, and is
/// reported with the reason why it could not be started. It is a failure of the
/// runtime exactly where nothing interrupted it and its memory sufficed.
pub proof fn law_unstarted_guests_are_reported(
    outcome: GuestOutcome,
    signal: ControlSignal,
    memory_exceeded: bool,
)
    ensures
        ({
            let (status, exit_code, error) = verdict_on(outcome, signal, memory_exceeded);
            &&& (outcome matches GuestOutcome::NotStarted(message) ==> {
                &&& exit_code is None
                &&& error == Some(message@)
                &&& status != ExecutionStatus::Completed
            })
            &&& (status == ExecutionStatus::RuntimeError <==> outcome is NotStarted && signal
                == ControlSignal::Clear && !memory_exceeded)
        }),
{
}

/// Once a started guest was interrupted or went over its memory limit, it does
/// not matter any more what it did: the verdict is the same, without a code, and
/// its error says which of the three it was.
pub proof fn law_interruptions_outweigh_the_guest(
    outcome: GuestOutcome,
    other: GuestOutcome,
    signal: ControlSignal,
    memory_exceeded: bool,
)
    requires
        !(outcome is NotStarted),
        !(other is NotStarted),
        signal != ControlSignal::Clear || memory_exceeded,
    ensures
        verdict_on(outcome, signal, memory_exceeded) == verdict_on(other, signal, memory_exceeded),
        ({
            let (_, exit_code, error) = verdict_on(outcome, signal, memory_exceeded);
            &&& exit_code is None
            &&& (signal == ControlSignal::TimedOut ==> error == Some(
                "execution exceeded its timeout"@,
            ))
            &&& (signal == ControlSignal::Cancelled ==> error == Some("execution was cancelled"@))
            &&& (signal == ControlSignal::Clear ==> error == Some(
                "execution exceeded its memory limit"@,
            ))
        }),
{
}

/// An execution goes on exactly where nobody cancelled it and it has time left:
/// it has no limit, or has taken less time than its limit. One that goes on is
/// looked at again at the very next tick and nothing else is said of it; one
/// that does not is told apart by whether it was cancelled.
pub proof fn law_executions_go_on_while_they_may(
    control: ExecutionControl,
    cancelled: bool,
    elapsed: Span,
    ticks: Option<u64>,
    kept: ExecutionControl,
)
    requires
        control.decided(cancelled, elapsed, ticks, kept),
    ensures
        ticks is Some <==> !cancelled && (control.limit() matches Some(limit) ==> elapsed.nanos
            < limit.nanos),
        ticks is Some ==> ticks == Some(1u64) && kept.raised() == control.raised(),
        ticks is None ==> (kept.raised() == ControlSignal::Cancelled <==> cancelled) && (
        kept.raised() == ControlSignal::TimedOut <==> !cancelled),
        kept.limit() == control.limit(),
        kept.origin() == control.origin(),
{
}

/// Time does not give an execution back what it has used up: one that is
/// interrupted after some time is interrupted after any longer time as well.
pub proof fn law_deadlines_stay_passed(
    control: ExecutionControl,
    cancelled: bool,
    early: Span,
    late: Span,
    ticks: Option<u64>,
    later_ticks: Option<u64>,
    kept: ExecutionControl,
    later_kept: ExecutionControl,
)
    requires
        early.nanos <= late.nanos,
        control.decided(cancelled, early, ticks, kept),
        control.decided(cancelled, late, later_ticks, later_kept),
    ensures
        ticks is None ==> later_ticks is None && later_kept.raised() == kept.raised(),
{
}

/// A memory is refused exactly where there is a limit and it is larger: a memory
/// that just fills the limit is not, and without a limit none is.
pub proof fn law_memory_is_refused_over_the_limit(limit: Option<usize>, desired: usize)
    ensures
        over_limit(limit, desired) <==> (limit is Some && limit->0 < desired),
        limit matches Some(most) ==> !over_limit(limit, most),
{
}

/// What came out of one execution, before the scheduler adds to it.
#[derive(Debug)]
pub struct RuntimeExecutionResult {
    pub status: ExecutionStatus,
    pub exit_code: Option<i32>,
    pub stdout: Vec<u8>,
    pub stderr: Vec<u8>,
    pub duration: Span,
    pub started: SystemTime,
    pub error: Option<String>,
}

impl RuntimeExecutionResult {
    /// The status, the exit code and the error.
    pub open spec fn parts(&self) -> (ExecutionStatus, Option<i32>, Option<Seq<char>>) {
        (self.status, self.exit_code, text::optional_text(self.error))
    }

    /// Whether the status, the exit code and the error fit together.
    pub open spec fn fits(&self) -> bool {
        consistent(self.status, self.exit_code, text::optional_text(self.error))
    }
}

/// The result of an execution, out of what was seen of it.
pub fn conclude(
    outcome: GuestOutcome,
    signal: ControlSignal,
    memory_exceeded: bool,
    stdout: Vec<u8>,
    stderr: Vec<u8>,
    started: SystemTime,
    duration: Span,
) -> (result: RuntimeExecutionResult)
    ensures
        result.parts() == verdict_on(outcome, signal, memory_exceeded),
        result.fits(),
        result.stdout == stdout,
        result.stderr == stderr,
        result.started == started,
        result.duration == duration,
{
    let ghost seen = outcome;
    let verdict = judge(outcome, signal, memory_exceeded);
    proof {
        law_verdicts_are_consistent(seen, signal, memory_exceeded);
    }
    RuntimeExecutionResult {
        status: verdict.status,
        exit_code: verdict.exit_code,
        stdout,
        stderr,
        duration,
        started,
        error: verdict.error,
    }
}

/// Each status has a name of its own.
pub proof fn law_statuses_are_named(status: ExecutionStatus, name: String)
    requires
        call_ensures(ExecutionStatus::name, (&status,), name),
    ensures
        name@ == "Completed"@ <==> status is Completed,
        name@ == "GuestExitNonZero"@ <==> status is GuestExitNonZero,
        name@ == "GuestTrap"@ <==> status is GuestTrap,
        name@ == "TimedOut"@ <==> status is TimedOut,
        name@ == "Cancelled"@ <==> status is Cancelled,
        name@ == "MemoryLimitExceeded"@ <==> status is MemoryLimitExceeded,
        name@ == "RuntimeError"@ <==> status is RuntimeError,
{
    reveal_strlit("Completed");
    reveal_strlit("GuestExitNonZero");
    reveal_strlit("GuestTrap");
    reveal_strlit("TimedOut");
    reveal_strlit("Cancelled");
    reveal_strlit("MemoryLimitExceeded");
    reveal_strlit("RuntimeError");
    assert("Completed"@.len() == 9 && "Completed"@[1] == 'o');
    assert("Cancelled"@.len() == 9 && "Cancelled"@[1] == 'a');
    assert("GuestTrap"@.len() == 9 && "GuestTrap"@[1] == 'u');
    assert("GuestExitNonZero"@.len() == 16);
    assert("TimedOut"@.len() == 8);
    assert("MemoryLimitExceeded"@.len() == 19);
    assert("RuntimeError"@.len() == 12);
}

/// A memory may grow exactly as far as its limit, and without one as far as it
/// wants. A limiter remembers that it refused something, and forgets nothing.
pub proof fn law_refusals_of_memory_are_remembered(
    limiter: &mut RuntimeLimiter,
    desired: usize,
    admitted: Result<bool, Failure>,
)
    requires
        call_ensures(RuntimeLimiter::admit_memory, (limiter, desired), admitted),
    ensures
        admitted is Ok <==> old(limiter).memory_limit is None || desired
            <= old(limiter).memory_limit->0,
        admitted matches Ok(granted) ==> granted,
        admitted matches Err(failure) ==> failure.says(
            "linear memory growth to "@ + text::decimal(desired as nat)
                + " bytes exceeds configured limit of "@ + text::decimal(
                old(limiter).memory_limit->0 as nat,
            ) + " bytes"@,
        ),
        final(limiter).memory_exceeded <==> old(limiter).memory_exceeded || admitted is Err,
        final(limiter).memory_limit == old(limiter).memory_limit,
{
}

/// An execution is interrupted exactly where it was cancelled or has used up its
/// time, the first before the second, and is otherwise left as it was.
pub proof fn law_executions_are_interrupted(
    control: &mut ExecutionControl,
    cancelled: bool,
    elapsed: Span,
    ticks: Option<u64>,
)
    requires
        call_ensures(ExecutionControl::observe, (control, cancelled, elapsed), ticks),
    ensures
        ticks is None <==> cancelled || (old(control).limit() is Some && elapsed.nanos
            >= old(control).limit()->0.nanos),
        cancelled ==> final(control).raised() == ControlSignal::Cancelled,
        ticks is None && !cancelled ==> final(control).raised() == ControlSignal::TimedOut,
        ticks is Some ==> final(control).raised() == old(control).raised(),
        final(control).limit() == old(control).limit(),
{
}

/// Whatever the token and the clock show, an execution without a timeout does not
/// run out of time, and one that may take no time at all does not go on.
pub proof fn law_only_limited_executions_run_out_of_time(
    control: &mut ExecutionControl,
    ticks: Option<u64>,
)
    requires
        call_ensures(ExecutionControl::check, (control,), ticks),
    ensures
        old(control).limit() is None && old(control).raised() != ControlSignal::TimedOut
            ==> final(control).raised() != ControlSignal::TimedOut,
        old(control).limit() == Some(Span { nanos: 0 }) ==> ticks is None,
        ticks is None ==> final(control).raised() != ControlSignal::Clear,
        ticks is Some ==> final(control).raised() == old(control).raised(),
        final(control).limit() == old(control).limit(),
{
    let kept = *final(control);
    assert(exists|cancelled: bool, elapsed: Span| #[trigger]
        old(control).decided(cancelled, elapsed, ticks, kept));
}

/// The result of an execution is that of its guest. For one that was started, and
/// neither interrupted nor over its memory limit, it is completed exactly where the
/// guest came back without a failure or left with zero, and a code that the guest
/// left with is the code that is told. What the guest wrote is kept as it is.
pub proof fn law_results_tell_what_the_guest_did(
    outcome: GuestOutcome,
    signal: ControlSignal,
    memory_exceeded: bool,
    stdout: Vec<u8>,
    stderr: Vec<u8>,
    started: SystemTime,
    duration: Span,
    verdict: Verdict,
    result: RuntimeExecutionResult,
)
    requires
        call_ensures(judge, (outcome, signal, memory_exceeded), verdict),
        call_ensures(
            conclude,
            (outcome, signal, memory_exceeded, stdout, stderr, started, duration),
            result,
        ),
    ensures
        result.stdout == stdout && result.stderr == stderr,
        result.started == started && result.duration == duration,
        result.status == verdict.status && result.exit_code == verdict.exit_code,
        verdict.status == ExecutionStatus::Completed <==> signal == ControlSignal::Clear
            && !memory_exceeded && (outcome is Returned || (
        outcome matches GuestOutcome::Exited { code, .. } && code == 0)),
        verdict.status == ExecutionStatus::GuestExitNonZero <==> signal == ControlSignal::Clear
            && !memory_exceeded && (outcome is ReturnedFailure || (
        outcome matches GuestOutcome::Exited { code, .. } && code != 0)),
        verdict.status == ExecutionStatus::GuestTrap <==> signal == ControlSignal::Clear
            && !memory_exceeded && outcome is Trapped,
        verdict.status == ExecutionStatus::RuntimeError <==> signal == ControlSignal::Clear
            && !memory_exceeded && outcome is NotStarted,
        verdict.status == ExecutionStatus::MemoryLimitExceeded <==> signal == ControlSignal::Clear
            && memory_exceeded,
        verdict.status == ExecutionStatus::TimedOut <==> signal == ControlSignal::TimedOut,
        verdict.status == ExecutionStatus::Cancelled <==> signal == ControlSignal::Cancelled,
        signal == ControlSignal::Clear && !memory_exceeded ==> (
        outcome matches GuestOutcome::Exited { code, .. } ==> verdict.exit_code == Some(code)),
        verdict.exit_code is Some ==> verdict.status == ExecutionStatus::Completed
            || verdict.status == ExecutionStatus::GuestExitNonZero,
{
}

} // verus!

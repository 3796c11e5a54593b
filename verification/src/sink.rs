//! The consumption loop as a state machine: one step maps the current state
//! and an incoming event to the next state and the action the runner must
//! perform. The runner owns the suspension points (awaiting a record,
//! sleeping before a retry) and the calls into the stream and the database;
//! every decision — fail fast on a decode error, retry a transient failure
//! with bounded exponential backoff, acknowledge only after success — is
//! taken here.

use vstd::prelude::*;

use crate::errors::DecodeError;
use crate::errors::ExecError;
use crate::errors::TermReason;

verus! {

/// How many times a transiently failing operation is retried before the
/// failure is treated as fatal.
pub const MAX_RETRIES: u32 = 5;

/// The base backoff delay in milliseconds.
pub const BACKOFF_BASE_MS: u64 = 100;

/// The longest backoff delay in milliseconds.
pub const BACKOFF_CAP_MS: u64 = 10000;

/// Where the loop stands.
#[derive(Clone, Copy, Debug, PartialEq, Eq, Structural)]
pub enum SinkPhase {
    /// Before the first record is requested.
    Idle,
    /// Waiting for the stream to deliver the next record.
    AwaitingRecord,
    /// An operation has been handed to the backend; the field counts the
    /// retries already spent on it.
    Executing { retries: u32 },
    /// The stream ended; the run finished cleanly.
    Finished,
    /// The run stopped on a fatal error.
    Terminated { reason: TermReason },
}

/// What the runner reports to the loop.
#[derive(Clone, Copy, Debug, PartialEq, Eq, Structural)]
pub enum SinkEvent {
    /// The runner is ready to start.
    Started,
    /// The next record arrived and was decoded (the operation itself travels
    /// beside the state machine, owned by the runner).
    RecordDecoded,
    /// The next record arrived but was rejected by the decoder.
    RecordRejected { error: DecodeError },
    /// The stream signalled its end.
    StreamEnded,
    /// The backend finished the current operation and reported success.
    ExecSucceeded,
    /// The backend finished the current operation and reported a failure.
    ExecFailed { error: ExecError },
}

/// What the runner must do next.
#[derive(Clone, Copy, Debug, PartialEq, Eq, Structural)]
pub enum SinkAction {
    /// Suspend until the next record or end-of-stream.
    Await,
    /// Execute the current operation against the backend.
    Execute,
    /// Sleep for the given milliseconds, then execute the current operation
    /// again.
    RetryAfter { delay_ms: u64 },
    /// Acknowledge the current record to the stream, then await the next.
    /// Acknowledgment happens only here, only after a successful execution:
    /// this is what makes delivery at-least-once.
    AcknowledgeThenAwait,
    /// Exit cleanly.
    Finish,
    /// Surface the terminal error and exit non-zero.
    Fail { reason: TermReason },
}

/// Which events can arrive in which phase: the protocol between the runner
/// and the loop.
pub open spec fn event_fits(phase: SinkPhase, event: SinkEvent) -> bool {
    match (phase, event) {
        (SinkPhase::Idle, SinkEvent::Started) => true,
        (SinkPhase::AwaitingRecord, SinkEvent::RecordDecoded) => true,
        (SinkPhase::AwaitingRecord, SinkEvent::RecordRejected { .. }) => true,
        (SinkPhase::AwaitingRecord, SinkEvent::StreamEnded) => true,
        (SinkPhase::Executing { .. }, SinkEvent::ExecSucceeded) => true,
        (SinkPhase::Executing { .. }, SinkEvent::ExecFailed { .. }) => true,
        _ => false,
    }
}

/// The exponential backoff delay for the given retry ordinal, capped.
pub open spec fn backoff_spec(retry: u32) -> u64 {
    if retry >= 7 {
        BACKOFF_CAP_MS
    } else if BACKOFF_BASE_MS * pow2_small(retry as nat) > BACKOFF_CAP_MS {
        BACKOFF_CAP_MS
    } else {
        (BACKOFF_BASE_MS * pow2_small(retry as nat)) as u64
    }
}

/// Two to the power `n`.
pub open spec fn pow2_small(n: nat) -> int
    decreases n,
{
    if n == 0 {
        1
    } else {
        2 * pow2_small((n - 1) as nat)
    }
}

/// Powers of two are positive and grow with the exponent.
pub proof fn lemma_pow2_small_mono(a: nat, b: nat)
    requires
        a <= b,
    ensures
        0 < pow2_small(a) <= pow2_small(b),
    decreases b,
{
    if a == b {
        if a > 0 {
            lemma_pow2_small_mono((a - 1) as nat, (b - 1) as nat);
        }
    } else {
        lemma_pow2_small_mono(a, (b - 1) as nat);
    }
}

/// One transition of the loop.
pub open spec fn step_spec(phase: SinkPhase, event: SinkEvent) -> (SinkPhase, SinkAction) {
    match (phase, event) {
        (SinkPhase::Idle, SinkEvent::Started) => (SinkPhase::AwaitingRecord, SinkAction::Await),
        (SinkPhase::AwaitingRecord, SinkEvent::RecordDecoded) => (
            SinkPhase::Executing { retries: 0 },
            SinkAction::Execute,
        ),
        (SinkPhase::AwaitingRecord, SinkEvent::RecordRejected { error }) => (
            SinkPhase::Terminated { reason: TermReason::Decode(error) },
            SinkAction::Fail { reason: TermReason::Decode(error) },
        ),
        (SinkPhase::AwaitingRecord, SinkEvent::StreamEnded) => (
            SinkPhase::Finished,
            SinkAction::Finish,
        ),
        (SinkPhase::Executing { .. }, SinkEvent::ExecSucceeded) => (
            SinkPhase::AwaitingRecord,
            SinkAction::AcknowledgeThenAwait,
        ),
        (SinkPhase::Executing { retries }, SinkEvent::ExecFailed { error }) => match error {
            ExecError::Transient => if retries < MAX_RETRIES {
                (
                    SinkPhase::Executing { retries: (retries + 1) as u32 },
                    SinkAction::RetryAfter { delay_ms: backoff_spec(retries) },
                )
            } else {
                (
                    SinkPhase::Terminated { reason: TermReason::Exec(ExecError::Transient) },
                    SinkAction::Fail { reason: TermReason::Exec(ExecError::Transient) },
                )
            },
            ExecError::Permanent => (
                SinkPhase::Terminated { reason: TermReason::Exec(ExecError::Permanent) },
                SinkAction::Fail { reason: TermReason::Exec(ExecError::Permanent) },
            ),
        },
        _ => (phase, SinkAction::Fail { reason: TermReason::Exec(ExecError::Permanent) }),
    }
}

/// The exponential backoff delay before the retry with the given ordinal.
pub fn backoff_delay(retry: u32) -> (r: u64)
    ensures
        r == backoff_spec(retry),
        r <= BACKOFF_CAP_MS,
{
    if retry >= 7 {
        BACKOFF_CAP_MS
    } else {
        let mut d: u64 = BACKOFF_BASE_MS;
        let mut k: u32 = 0;
        while k < retry
            invariant
                0 <= k <= retry,
                retry < 7,
                d == BACKOFF_BASE_MS * pow2_small(k as nat),
                d <= 6400,
            decreases retry - k,
        {
            d = d * 2;
            k = k + 1;
            proof {
                lemma_pow2_small_mono(k as nat, 6);
                reveal_with_fuel(pow2_small, 7);
                assert(pow2_small(6) == 64);
            }
        }
        if d > BACKOFF_CAP_MS {
            BACKOFF_CAP_MS
        } else {
            d
        }
    }
}

/// Performs one transition of the consumption loop.
pub fn step(phase: SinkPhase, event: SinkEvent) -> (r: (SinkPhase, SinkAction))
    requires
        event_fits(phase, event),
    ensures
        r == step_spec(phase, event),
{
    match (phase, event) {
        (SinkPhase::Idle, SinkEvent::Started) => (SinkPhase::AwaitingRecord, SinkAction::Await),
        (SinkPhase::AwaitingRecord, SinkEvent::RecordDecoded) => (
            SinkPhase::Executing { retries: 0 },
            SinkAction::Execute,
        ),
        (SinkPhase::AwaitingRecord, SinkEvent::RecordRejected { error }) => (
            SinkPhase::Terminated { reason: TermReason::Decode(error) },
            SinkAction::Fail { reason: TermReason::Decode(error) },
        ),
        (SinkPhase::AwaitingRecord, SinkEvent::StreamEnded) => (
            SinkPhase::Finished,
            SinkAction::Finish,
        ),
        (SinkPhase::Executing { .. }, SinkEvent::ExecSucceeded) => (
            SinkPhase::AwaitingRecord,
            SinkAction::AcknowledgeThenAwait,
        ),
        (SinkPhase::Executing { retries }, SinkEvent::ExecFailed { error }) => match error {
            ExecError::Transient => {
                if retries < MAX_RETRIES {
                    let delay = backoff_delay(retries);
                    (
                        SinkPhase::Executing { retries: retries + 1 },
                        SinkAction::RetryAfter { delay_ms: delay },
                    )
                } else {
                    (
                        SinkPhase::Terminated { reason: TermReason::Exec(ExecError::Transient) },
                        SinkAction::Fail { reason: TermReason::Exec(ExecError::Transient) },
                    )
                }
            },
            ExecError::Permanent => (
                SinkPhase::Terminated { reason: TermReason::Exec(ExecError::Permanent) },
                SinkAction::Fail { reason: TermReason::Exec(ExecError::Permanent) },
            ),
        },
        _ => (phase, SinkAction::Fail { reason: TermReason::Exec(ExecError::Permanent) }),
    }
}

/// A record is acknowledged when and only when its execution has just
/// succeeded: no step acknowledges on any other event, so advancing the
/// stream position always means the mutation was applied (at-least-once
/// delivery).
pub proof fn lemma_ack_only_after_success(phase: SinkPhase, event: SinkEvent)
    ensures
        step_spec(phase, event).1 == SinkAction::AcknowledgeThenAwait <==> (phase matches
            SinkPhase::Executing { .. }) && event == SinkEvent::ExecSucceeded,
{
}

/// A decode failure is a poison pill: the loop terminates at once, carrying
/// the decode error, and the record is not acknowledged.
pub proof fn lemma_decode_failure_fails_fast(error: DecodeError)
    ensures
        step_spec(SinkPhase::AwaitingRecord, SinkEvent::RecordRejected { error }) == (
            SinkPhase::Terminated { reason: TermReason::Decode(error) },
            SinkAction::Fail { reason: TermReason::Decode(error) },
        ),
{
}

/// A transient failure within the retry budget is retried — the operation is
/// executed again after a bounded delay, nothing is acknowledged and nothing
/// is skipped — and a success on the retry acknowledges the record exactly
/// once.
pub proof fn lemma_transient_retry_then_ack(retries: u32)
    requires
        retries < MAX_RETRIES,
    ensures
        ({
            let first = step_spec(
                SinkPhase::Executing { retries },
                SinkEvent::ExecFailed { error: ExecError::Transient },
            );
            let second = step_spec(first.0, SinkEvent::ExecSucceeded);
            &&& first.1 == (SinkAction::RetryAfter { delay_ms: backoff_spec(retries) })
            &&& first.1 != SinkAction::AcknowledgeThenAwait
            &&& first.0 == (SinkPhase::Executing { retries: (retries + 1) as u32 })
            &&& second.1 == SinkAction::AcknowledgeThenAwait
            &&& second.0 == SinkPhase::AwaitingRecord
        }),
{
}

/// A permanent execution failure terminates the loop without acknowledging
/// the record: the stream position is not advanced past a mutation that was
/// not applied.
pub proof fn lemma_permanent_failure_terminates(retries: u32)
    ensures
        step_spec(
            SinkPhase::Executing { retries },
            SinkEvent::ExecFailed { error: ExecError::Permanent },
        ) == (
            SinkPhase::Terminated { reason: TermReason::Exec(ExecError::Permanent) },
            SinkAction::Fail { reason: TermReason::Exec(ExecError::Permanent) },
        ),
{
}

/// The retry budget is bounded: once the budget is spent, a transient
/// failure is escalated to a terminal one rather than retried forever.
pub proof fn lemma_retry_budget_bounded(retries: u32)
    requires
        retries >= MAX_RETRIES,
    ensures
        step_spec(
            SinkPhase::Executing { retries },
            SinkEvent::ExecFailed { error: ExecError::Transient },
        ).0 == (SinkPhase::Terminated { reason: TermReason::Exec(ExecError::Transient) }),
{
}

} // verus!

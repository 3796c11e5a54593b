use sql_sink::errors::DecodeError;
use sql_sink::errors::ExecError;
use sql_sink::errors::TermReason;
use sql_sink::sink::backoff_delay;
use sql_sink::sink::step;
use sql_sink::sink::SinkAction;
use sql_sink::sink::SinkEvent;
use sql_sink::sink::SinkPhase;
use sql_sink::sink::BACKOFF_CAP_MS;

#[test]
fn start_awaits_the_first_record() {
    let (phase, action) = step(SinkPhase::Idle, SinkEvent::Started);
    assert_eq!(phase, SinkPhase::AwaitingRecord);
    assert_eq!(action, SinkAction::Await);
}

#[test]
fn decoded_record_is_executed() {
    let (phase, action) = step(SinkPhase::AwaitingRecord, SinkEvent::RecordDecoded);
    assert_eq!(phase, SinkPhase::Executing { retries: 0 });
    assert_eq!(action, SinkAction::Execute);
}

#[test]
fn transient_failure_retries_then_success_acknowledges_once() {
    let mut acks = 0;
    let (phase, action) = step(
        SinkPhase::Executing { retries: 0 },
        SinkEvent::ExecFailed { error: ExecError::Transient },
    );
    if action == SinkAction::AcknowledgeThenAwait {
        acks += 1;
    }
    assert_eq!(phase, SinkPhase::Executing { retries: 1 });
    assert_eq!(action, SinkAction::RetryAfter { delay_ms: 100 });
    let (phase, action) = step(phase, SinkEvent::ExecSucceeded);
    if action == SinkAction::AcknowledgeThenAwait {
        acks += 1;
    }
    assert_eq!(phase, SinkPhase::AwaitingRecord);
    assert_eq!(acks, 1);
}

#[test]
fn permanent_failure_terminates_without_acknowledging() {
    let (phase, action) = step(
        SinkPhase::Executing { retries: 0 },
        SinkEvent::ExecFailed { error: ExecError::Permanent },
    );
    assert_eq!(phase, SinkPhase::Terminated { reason: TermReason::Exec(ExecError::Permanent) });
    assert_ne!(action, SinkAction::AcknowledgeThenAwait);
    assert_eq!(action, SinkAction::Fail { reason: TermReason::Exec(ExecError::Permanent) });
}

#[test]
fn decode_failure_is_a_poison_pill() {
    let (phase, action) = step(
        SinkPhase::AwaitingRecord,
        SinkEvent::RecordRejected { error: DecodeError::UnknownOperationTag },
    );
    assert_eq!(
        phase,
        SinkPhase::Terminated { reason: TermReason::Decode(DecodeError::UnknownOperationTag) },
    );
    assert_ne!(action, SinkAction::AcknowledgeThenAwait);
}

#[test]
fn retry_budget_is_bounded() {
    let mut phase = SinkPhase::Executing { retries: 0 };
    let mut retries_seen = 0;
    loop {
        let (next, action) = step(phase, SinkEvent::ExecFailed { error: ExecError::Transient });
        match action {
            SinkAction::RetryAfter { .. } => {
                retries_seen += 1;
                phase = next;
            }
            SinkAction::Fail { reason } => {
                assert_eq!(reason, TermReason::Exec(ExecError::Transient));
                assert_eq!(next, SinkPhase::Terminated { reason });
                break;
            }
            other => panic!("unexpected action {:?}", other),
        }
    }
    assert_eq!(retries_seen, 5);
}

#[test]
fn stream_end_finishes_cleanly() {
    let (phase, action) = step(SinkPhase::AwaitingRecord, SinkEvent::StreamEnded);
    assert_eq!(phase, SinkPhase::Finished);
    assert_eq!(action, SinkAction::Finish);
}

#[test]
fn backoff_doubles_and_is_capped() {
    assert_eq!(backoff_delay(0), 100);
    assert_eq!(backoff_delay(1), 200);
    assert_eq!(backoff_delay(2), 400);
    assert_eq!(backoff_delay(5), 3200);
    assert_eq!(backoff_delay(9), BACKOFF_CAP_MS);
}

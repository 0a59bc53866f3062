use urva::error::{DriverError, DriverErrorKind, Error};
use urva::transaction::{
    after_body_err, after_body_ok, after_commit, before_attempt, commit_again, AfterBody, AfterCommit, BeforeAttempt,
    Notes, MAX_TRANSACTION_NANOS,
};

fn failure(kind: DriverErrorKind, labels: &[&str], message: &str) -> DriverError {
    DriverError {
        kind,
        labels: labels.iter().map(|l| l.to_string()).collect(),
        message: message.to_string(),
        has_source: false,
    }
}

fn transient(message: &str) -> DriverError {
    failure(DriverErrorKind::Other, &["TransientTransactionError"], message)
}

#[test]
fn notes_keep_the_last_transient_and_the_first_other_failure() {
    let mut notes = Notes::new();
    notes.note(&failure(DriverErrorKind::Write { code: 11000 }, &[], "first"));
    notes.note(&failure(DriverErrorKind::Write { code: 1 }, &[], "second"));
    notes.note(&failure(DriverErrorKind::InvalidArgument, &[], "never sent"));
    notes.note(&transient("t1"));
    notes.note(&transient("t2"));
    assert_eq!(notes.take_transient().map(|e| e.message), Some("t2".to_string()));
    assert_eq!(notes.take_transient(), None);
    match notes.commit_refusal() {
        Some(Error::Driver(e)) => assert_eq!(e.message, "first"),
        other => panic!("unexpected {other:?}"),
    }
    assert_eq!(notes.take_first_failure(), None);
}

#[test]
fn a_failure_before_sending_is_not_noted() {
    let mut notes = Notes::new();
    notes.note(&failure(DriverErrorKind::BsonSerialization, &[], "x"));
    assert!(notes.commit_refusal().is_none());
}

#[test]
fn a_run_retries_until_the_next_wait_would_pass_the_limit() {
    assert_eq!(before_attempt(0, None, 0, 7), BeforeAttempt::Start { attempt: 1 });
    assert_eq!(before_attempt(1, Some(transient("t")), 1_000, 5), BeforeAttempt::Wait { millis: 5, attempt: 2 });
    match before_attempt(3, Some(transient("t")), MAX_TRANSACTION_NANOS - 4_000_000, 4) {
        BeforeAttempt::GiveUp(Error::TransactionTimeout { attempts, last }) => {
            assert_eq!(attempts, 3);
            assert_eq!(last.message, "t");
        }
        other => panic!("unexpected {other:?}"),
    }
    assert!(matches!(
        before_attempt(3, Some(transient("t")), MAX_TRANSACTION_NANOS - 4_000_001, 4),
        BeforeAttempt::Wait { .. }
    ));
    assert!(matches!(before_attempt(3, Some(transient("t")), 0, u64::MAX), BeforeAttempt::GiveUp(_)));
}

#[test]
fn after_the_body_a_noted_failure_decides() {
    assert!(matches!(after_body_ok(None, None), AfterBody::Commit));
    assert!(matches!(after_body_ok(None, Some(transient("t"))), AfterBody::Retry(_)));
    assert!(matches!(
        after_body_ok(Some(failure(DriverErrorKind::Other, &[], "f")), Some(transient("t"))),
        AfterBody::Fail(Error::Driver(_))
    ));
}

#[test]
fn a_failed_body_retries_only_on_a_transient_failure() {
    assert_eq!(after_body_err(None, None), None);
    let plain = failure(DriverErrorKind::Other, &[], "p");
    assert_eq!(after_body_err(None, Some(&plain)), None);
    let t = transient("from the body");
    assert_eq!(after_body_err(None, Some(&t)).map(|e| e.message), Some("from the body".to_string()));
    assert_eq!(after_body_err(Some(transient("noted")), Some(&t)).map(|e| e.message), Some("noted".to_string()));
}

#[test]
fn commit_outcomes() {
    assert_eq!(after_commit(Ok(())), AfterCommit::Done);
    assert!(matches!(after_commit(Err(transient("t"))), AfterCommit::Retry(_)));
    assert!(matches!(
        after_commit(Err(failure(DriverErrorKind::Command { code: 2 }, &[], "c"))),
        AfterCommit::Fail(Error::CommitFailed(_))
    ));
}

#[test]
fn an_unknown_commit_is_tried_again_within_the_limit() {
    let unknown = failure(DriverErrorKind::Other, &["UnknownTransactionCommitResult"], "u");
    assert!(commit_again(&unknown, 0));
    assert!(!commit_again(&unknown, MAX_TRANSACTION_NANOS));
    let expired = failure(DriverErrorKind::Command { code: 50 }, &["UnknownTransactionCommitResult"], "u");
    assert!(!commit_again(&expired, 0));
    assert!(!commit_again(&failure(DriverErrorKind::Other, &[], "u"), 0));
}

#[test]
fn transient_errors_are_recognised() {
    assert!(Error::Driver(transient("t")).is_transient());
    assert!(Error::CommitFailed(transient("t")).is_transient());
    assert!(!Error::Driver(failure(DriverErrorKind::Other, &[], "x")).is_transient());
}

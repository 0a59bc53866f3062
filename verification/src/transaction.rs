//! The decisions of a transaction: which failures of its operations it
//! remembers, and, for a transaction run with retries, what to do after each
//! step. The caller performs the steps (begin, run the body, abort, commit,
//! sleep) and hands back what happened.
use vstd::prelude::*;

use crate::error::{DriverError, Error, same_failure, transient_label, transient_label_text};

verus! {

/// How long a transaction run may keep retrying, in nanoseconds.
pub const MAX_TRANSACTION_NANOS: u64 = 120_000_000_000;

/// The label the server puts on a commit whose outcome is unknown.
pub open spec fn unknown_commit_label() -> Seq<char> {
    seq![
        'U', 'n', 'k', 'n', 'o', 'w', 'n', 'T', 'r', 'a', 'n', 's', 'a', 'c', 't', 'i', 'o', 'n',
        'C', 'o', 'm', 'm', 'i', 't', 'R', 'e', 's', 'u', 'l', 't',
    ]
}

pub fn unknown_commit_label_text() -> (r: &'static str)
    ensures
        r@ == unknown_commit_label(),
{
    let s = "UnknownTransactionCommitResult";
    proof {
        reveal_strlit("UnknownTransactionCommitResult");
    }
    s
}

/// What a transaction remembers of the failures of its operations: the last
/// transient one, and the first other one that reached the server.
pub struct Notes {
    transient: Option<DriverError>,
    first_failure: Option<DriverError>,
}

impl Notes {
    pub closed spec fn spec_transient(&self) -> Option<DriverError> {
        self.transient
    }

    pub closed spec fn spec_first_failure(&self) -> Option<DriverError> {
        self.first_failure
    }

    /// Nothing noted yet.
    pub fn new() -> (n: Notes)
        ensures
            n.spec_transient() is None,
            n.spec_first_failure() is None,
    {
        Notes { transient: None, first_failure: None }
    }

    /// Notes the failure of an operation run in the transaction: a transient
    /// one replaces the transient failure noted before; another one that
    /// reached the server is kept if it is the first.
    pub fn note(&mut self, error: &DriverError)
        ensures
            error.has_label(transient_label()) ==> {
                &&& final(self).spec_transient() matches Some(t) && same_failure(t, *error)
                &&& final(self).spec_first_failure() == old(self).spec_first_failure()
            },
            !error.has_label(transient_label()) ==> final(self).spec_transient() == old(self).spec_transient(),
            !error.has_label(transient_label()) && !error.spec_nothing_sent() ==> match old(self).spec_first_failure() {
                Some(f) => final(self).spec_first_failure() == Some(f),
                None => final(self).spec_first_failure() matches Some(f) && same_failure(f, *error),
            },
            !error.has_label(transient_label()) && error.spec_nothing_sent() ==> final(self).spec_first_failure()
                == old(self).spec_first_failure(),
    {
        if error.contains_label(transient_label_text()) {
            self.transient = Some(error.duplicate());
        } else if !error.nothing_sent() {
            if self.first_failure.is_none() {
                self.first_failure = Some(error.duplicate());
            }
        }
    }

    /// Takes the first failure out.
    pub fn take_first_failure(&mut self) -> (r: Option<DriverError>)
        ensures
            r == old(self).spec_first_failure(),
            final(self).spec_first_failure() is None,
            final(self).spec_transient() == old(self).spec_transient(),
    {
        self.first_failure.take()
    }

    /// Takes the transient failure out.
    pub fn take_transient(&mut self) -> (r: Option<DriverError>)
        ensures
            r == old(self).spec_transient(),
            final(self).spec_transient() is None,
            final(self).spec_first_failure() == old(self).spec_first_failure(),
    {
        self.transient.take()
    }

    /// What an explicit commit meets first: the first failure, which aborts
    /// the transaction and is returned as a driver error; `None` when the
    /// commit may go ahead.
    pub fn commit_refusal(&mut self) -> (r: Option<Error>)
        ensures
            match old(self).spec_first_failure() {
                Some(f) => r == Some(Error::Driver(f)),
                None => r is None,
            },
            final(self).spec_first_failure() is None,
            final(self).spec_transient() == old(self).spec_transient(),
    {
        match self.take_first_failure() {
            Some(first) => Some(Error::Driver(first)),
            None => None,
        }
    }
}

/// What a retrying run does before an attempt.
#[derive(Debug, PartialEq)]
pub enum BeforeAttempt {
    /// Begin attempt number `attempt`.
    Start { attempt: u32 },
    /// Sleep `millis` milliseconds, then begin attempt number `attempt`.
    Wait { millis: u64, attempt: u32 },
    /// Give up: another wait would pass the time limit.
    GiveUp(Error),
}

/// Before an attempt, with `attempt` attempts made so far, the transient
/// failure of the last one (if any), the time since the run started and the
/// back-off drawn for this attempt: a first attempt starts at once; a retry
/// waits the back-off unless that reaches the time limit, which ends the run
/// with a timeout that reports the attempts made and the last failure.
pub fn before_attempt(attempt: u32, last_transient: Option<DriverError>, elapsed_nanos: u64, backoff_millis: u64) -> (r: BeforeAttempt)
    requires
        attempt < u32::MAX,
    ensures
        match last_transient {
            None => r == BeforeAttempt::Start { attempt: (attempt + 1) as u32 },
            Some(last) => if elapsed_nanos + backoff_millis * 1_000_000 >= MAX_TRANSACTION_NANOS {
                r == BeforeAttempt::GiveUp(Error::TransactionTimeout { attempts: attempt, last })
            } else {
                r == BeforeAttempt::Wait { millis: backoff_millis, attempt: (attempt + 1) as u32 }
            },
        },
{
    match last_transient {
        None => BeforeAttempt::Start { attempt: attempt + 1 },
        Some(last) => {
            let budget_used = if elapsed_nanos >= MAX_TRANSACTION_NANOS {
                true
            } else {
                let remaining = MAX_TRANSACTION_NANOS - elapsed_nanos;
                if backoff_millis > remaining / 1_000_000 {
                    assert(backoff_millis * 1_000_000 >= remaining) by (nonlinear_arith)
                        requires
                            backoff_millis > remaining / 1_000_000,
                    ;
                    true
                } else {
                    assert(backoff_millis * 1_000_000 <= remaining) by (nonlinear_arith)
                        requires
                            backoff_millis <= remaining / 1_000_000,
                    ;
                    backoff_millis * 1_000_000 >= remaining
                }
            };
            if budget_used {
                BeforeAttempt::GiveUp(Error::TransactionTimeout { attempts: attempt, last })
            } else {
                BeforeAttempt::Wait { millis: backoff_millis, attempt: attempt + 1 }
            }
        },
    }
}

/// What a run does after its body succeeded.
#[derive(Debug, PartialEq)]
pub enum AfterBody {
    /// Commit.
    Commit,
    /// Abort, then retry after this transient failure.
    Retry(DriverError),
    /// Abort, then end the run with this error.
    Fail(Error),
}

/// After the body succeeded: a failure noted during it ends the run as a
/// driver error; else a transient failure noted during it makes the run
/// retry; else the transaction commits.
pub fn after_body_ok(first_failure: Option<DriverError>, transient: Option<DriverError>) -> (r: AfterBody)
    ensures
        match (first_failure, transient) {
            (Some(f), _) => r == AfterBody::Fail(Error::Driver(f)),
            (None, Some(t)) => r == AfterBody::Retry(t),
            (None, None) => r == AfterBody::Commit,
        },
{
    match first_failure {
        Some(f) => AfterBody::Fail(Error::Driver(f)),
        None => match transient {
            Some(t) => AfterBody::Retry(t),
            None => AfterBody::Commit,
        },
    }
}

/// After the body failed: the transient failure noted during it, or else the
/// driver failure in the body's error when it is transient, makes the run
/// retry (`Some`); otherwise the body's error ends the run (`None`).
/// `returned` is the driver failure the body's error carries, if any.
pub fn after_body_err(transient: Option<DriverError>, returned: Option<&DriverError>) -> (r: Option<DriverError>)
    ensures
        transient is Some ==> r == transient,
        transient is None ==> match returned {
            Some(d) => if d.has_label(transient_label()) {
                r matches Some(x) && same_failure(x, *d)
            } else {
                r is None
            },
            None => r is None,
        },
{
    match transient {
        Some(t) => Some(t),
        None => match returned {
            Some(d) => {
                if d.contains_label(transient_label_text()) {
                    Some(d.duplicate())
                } else {
                    None
                }
            },
            None => None,
        },
    }
}

/// What a run does after a commit.
#[derive(Debug, PartialEq)]
pub enum AfterCommit {
    /// The transaction committed.
    Done,
    /// Retry after this transient failure.
    Retry(DriverError),
    /// End the run with this error.
    Fail(Error),
}

/// After the commit: success ends the run, a transient failure retries it,
/// any other failure ends it as a failed commit.
pub fn after_commit(result: Result<(), DriverError>) -> (r: AfterCommit)
    ensures
        match result {
            Ok(()) => r == AfterCommit::Done,
            Err(e) => if e.has_label(transient_label()) {
                r == AfterCommit::Retry(e)
            } else {
                r == AfterCommit::Fail(Error::CommitFailed(e))
            },
        },
{
    match result {
        Ok(()) => AfterCommit::Done,
        Err(e) => {
            if e.contains_label(transient_label_text()) {
                AfterCommit::Retry(e)
            } else {
                AfterCommit::Fail(Error::CommitFailed(e))
            }
        },
    }
}

/// A failed commit is tried again when its outcome is unknown, the server's
/// time limit did not cause it, and the run is still within its time limit.
pub fn commit_again(error: &DriverError, elapsed_nanos: u64) -> (b: bool)
    ensures
        b == (error.has_label(unknown_commit_label()) && !error.spec_max_time_expired()
            && elapsed_nanos < MAX_TRANSACTION_NANOS),
{
    error.contains_label(unknown_commit_label_text()) && !error.max_time_expired()
        && elapsed_nanos < MAX_TRANSACTION_NANOS
}

} // verus!

//! The library's errors, and the driver failures it reads.
use vstd::prelude::*;

use crate::bson::Bson;
use crate::lifecycle::IndexDiff;
use crate::text::str_eq;

verus! {

/// The server's duplicate-key error code.
pub const DUPLICATE_KEY_CODE: i32 = 11000;

/// What kind of failure the driver reported, with the codes the store reads.
#[derive(Debug, PartialEq)]
pub enum DriverErrorKind {
    /// A single write failed with a write error.
    Write { code: i32 },
    /// A write concern could not be satisfied.
    WriteConcern { code: i32 },
    /// A command failed.
    Command { code: i32 },
    /// A multi-document insert failed; its write errors, by document index.
    InsertMany { errors: Vec<(usize, i32)> },
    /// A bulk write failed; its write errors, by operation index.
    BulkWrite { errors: Vec<(usize, i32)> },
    /// The request was refused before anything was sent.
    InvalidArgument,
    /// A value could not be encoded before anything was sent.
    BsonSerialization,
    /// Anything else.
    Other,
}

/// A failure reported by the database driver: its kind, its error labels, its
/// text, and whether it wraps another error.
#[derive(Debug, PartialEq)]
pub struct DriverError {
    pub kind: DriverErrorKind,
    pub labels: Vec<String>,
    pub message: String,
    pub has_source: bool,
}

/// The write errors of a failed bulk write, by operation index, and the
/// operations that are known to have been applied.
#[derive(Debug, PartialEq)]
pub struct BulkReport {
    pub write_errors: Vec<(usize, i32)>,
    pub applied: Vec<usize>,
}

#[derive(Debug, PartialEq)]
pub enum Error {
    Driver(DriverError),
    InvalidUpdate { message: String },
    VersionConflict { collection: &'static str, id: Bson },
    ConditionFailed { collection: &'static str, id: Bson },
    NotFound { collection: &'static str, id: Bson },
    TransactionTimeout { attempts: u32, last: DriverError },
    CommitFailed(DriverError),
    IndexDrift(IndexDiff),
    Bulk(BulkReport),
}

pub type Result<T> = core::result::Result<T, Error>;

/// The label the server puts on errors after which a transaction may be retried.
pub open spec fn transient_label() -> Seq<char> {
    seq!['T', 'r', 'a', 'n', 's', 'i', 'e', 'n', 't', 'T', 'r', 'a', 'n', 's', 'a', 'c', 't', 'i', 'o', 'n', 'E', 'r', 'r', 'o', 'r']
}

pub fn transient_label_text() -> (r: &'static str)
    ensures
        r@ == transient_label(),
{
    let s = "TransientTransactionError";
    proof {
        reveal_strlit("TransientTransactionError");
    }
    s
}

impl DriverError {
    pub open spec fn has_label(&self, label: Seq<char>) -> bool {
        exists|i: int| 0 <= i < self.labels@.len() && self.labels@[i]@ == label
    }

    /// Whether the error carries `label`.
    pub fn contains_label(&self, label: &str) -> (b: bool)
        ensures
            b == self.has_label(label@),
    {
        let mut i: usize = 0;
        while i < self.labels.len()
            invariant
                i <= self.labels@.len(),
                forall|j: int| 0 <= j < i ==> self.labels@[j]@ != label@,
            decreases self.labels.len() - i,
        {
            if str_eq(self.labels[i].as_str(), label) {
                return true;
            }
            i = i + 1;
        }
        false
    }

    /// The error is a duplicate-key failure.
    pub open spec fn spec_is_duplicate_key(&self) -> bool {
        match self.kind {
            DriverErrorKind::Write { code } => code == DUPLICATE_KEY_CODE,
            DriverErrorKind::Command { code } => code == DUPLICATE_KEY_CODE,
            DriverErrorKind::InsertMany { errors } => exists|i: int|
                0 <= i < errors@.len() && errors@[i].1 == DUPLICATE_KEY_CODE,
            DriverErrorKind::BulkWrite { errors } => exists|i: int|
                0 <= i < errors@.len() && errors@[i].1 == DUPLICATE_KEY_CODE,
            _ => false,
        }
    }

    pub fn is_duplicate_key(&self) -> (b: bool)
        ensures
            b == self.spec_is_duplicate_key(),
    {
        match &self.kind {
            DriverErrorKind::Write { code } => *code == DUPLICATE_KEY_CODE,
            DriverErrorKind::Command { code } => *code == DUPLICATE_KEY_CODE,
            DriverErrorKind::InsertMany { errors } => any_duplicate_code(errors),
            DriverErrorKind::BulkWrite { errors } => any_duplicate_code(errors),
            _ => false,
        }
    }

    /// Nothing reached the server: the request was refused while it was built.
    pub open spec fn spec_nothing_sent(&self) -> bool {
        self.kind is InvalidArgument || self.kind is BsonSerialization
    }

    pub fn nothing_sent(&self) -> (b: bool)
        ensures
            b == self.spec_nothing_sent(),
    {
        match &self.kind {
            DriverErrorKind::InvalidArgument => true,
            DriverErrorKind::BsonSerialization => true,
            _ => false,
        }
    }

    /// The failure is the server's time limit running out (code 50).
    pub open spec fn spec_max_time_expired(&self) -> bool {
        match self.kind {
            DriverErrorKind::Command { code } => code == 50,
            DriverErrorKind::WriteConcern { code } => code == 50,
            _ => false,
        }
    }

    pub fn max_time_expired(&self) -> (b: bool)
        ensures
            b == self.spec_max_time_expired(),
    {
        match &self.kind {
            DriverErrorKind::Command { code } => *code == 50,
            DriverErrorKind::WriteConcern { code } => *code == 50,
            _ => false,
        }
    }
}

fn any_duplicate_code(errors: &Vec<(usize, i32)>) -> (b: bool)
    ensures
        b == exists|i: int| 0 <= i < errors@.len() && errors@[i].1 == DUPLICATE_KEY_CODE,
{
    let mut i: usize = 0;
    while i < errors.len()
        invariant
            i <= errors@.len(),
            forall|j: int| 0 <= j < i ==> errors@[j].1 != DUPLICATE_KEY_CODE,
        decreases errors.len() - i,
    {
        if errors[i].1 == DUPLICATE_KEY_CODE {
            return true;
        }
        i = i + 1;
    }
    false
}

impl DriverErrorKind {
    pub fn duplicate(&self) -> (r: DriverErrorKind)
        ensures
            same_kind(r, *self),
    {
        match self {
            DriverErrorKind::Write { code } => DriverErrorKind::Write { code: *code },
            DriverErrorKind::WriteConcern { code } => DriverErrorKind::WriteConcern { code: *code },
            DriverErrorKind::Command { code } => DriverErrorKind::Command { code: *code },
            DriverErrorKind::InsertMany { errors } => DriverErrorKind::InsertMany { errors: copy_items(errors) },
            DriverErrorKind::BulkWrite { errors } => DriverErrorKind::BulkWrite { errors: copy_items(errors) },
            DriverErrorKind::InvalidArgument => DriverErrorKind::InvalidArgument,
            DriverErrorKind::BsonSerialization => DriverErrorKind::BsonSerialization,
            DriverErrorKind::Other => DriverErrorKind::Other,
        }
    }
}

/// Two failure kinds say the same.
pub open spec fn same_kind(a: DriverErrorKind, b: DriverErrorKind) -> bool {
    match (a, b) {
        (DriverErrorKind::Write { code: x }, DriverErrorKind::Write { code: y }) => x == y,
        (DriverErrorKind::WriteConcern { code: x }, DriverErrorKind::WriteConcern { code: y }) => x == y,
        (DriverErrorKind::Command { code: x }, DriverErrorKind::Command { code: y }) => x == y,
        (DriverErrorKind::InsertMany { errors: x }, DriverErrorKind::InsertMany { errors: y }) => x@ == y@,
        (DriverErrorKind::BulkWrite { errors: x }, DriverErrorKind::BulkWrite { errors: y }) => x@ == y@,
        (DriverErrorKind::InvalidArgument, DriverErrorKind::InvalidArgument) => true,
        (DriverErrorKind::BsonSerialization, DriverErrorKind::BsonSerialization) => true,
        (DriverErrorKind::Other, DriverErrorKind::Other) => true,
        _ => false,
    }
}

/// Two failures say the same: kind, labels, text and whether they wrap another.
pub open spec fn same_failure(a: DriverError, b: DriverError) -> bool {
    &&& same_kind(a.kind, b.kind)
    &&& a.labels@.len() == b.labels@.len()
    &&& forall|i: int| 0 <= i < a.labels@.len() ==> #[trigger] a.labels@[i]@ == b.labels@[i]@
    &&& a.message@ == b.message@
    &&& a.has_source == b.has_source
}

/// Failures that say the same carry the same labels.
pub proof fn lemma_same_failure_labels(a: DriverError, b: DriverError)
    requires
        same_failure(a, b),
    ensures
        forall|l: Seq<char>| a.has_label(l) == b.has_label(l),
{
    assert forall|l: Seq<char>| a.has_label(l) == b.has_label(l) by {
        if a.has_label(l) {
            let i = choose|i: int| 0 <= i < a.labels@.len() && a.labels@[i]@ == l;
            assert(b.labels@[i]@ == l);
        }
        if b.has_label(l) {
            let i = choose|i: int| 0 <= i < b.labels@.len() && b.labels@[i]@ == l;
            assert(a.labels@[i]@ == l);
        }
    }
}

/// An element-wise copy of `items`.
pub fn copy_items<T: Copy>(items: &Vec<T>) -> (r: Vec<T>)
    ensures
        r@ == items@,
{
    let mut r: Vec<T> = Vec::new();
    let mut i: usize = 0;
    while i < items.len()
        invariant
            i <= items@.len(),
            r@ == items@.take(i as int),
        decreases items.len() - i,
    {
        r.push(items[i]);
        i = i + 1;
        assert(r@ =~= items@.take(i as int));
    }
    assert(items@.take(i as int) =~= items@);
    r
}

impl DriverError {
    /// A copy of the failure.
    pub fn duplicate(&self) -> (r: DriverError)
        ensures
            same_failure(r, *self),
            r.spec_is_duplicate_key() == self.spec_is_duplicate_key(),
            r.spec_nothing_sent() == self.spec_nothing_sent(),
            r.spec_max_time_expired() == self.spec_max_time_expired(),
            forall|l: Seq<char>| r.has_label(l) == self.has_label(l),
    {
        let r = DriverError {
            kind: self.kind.duplicate(),
            labels: self.labels.clone(),
            message: self.message.clone(),
            has_source: self.has_source,
        };
        proof {
            lemma_same_failure_labels(r, *self);
        }
        r
    }
}

/// Two errors say the same: the same kind, with the same details.
pub open spec fn same_error(x: Error, y: Error) -> bool {
    match (x, y) {
        (Error::Driver(p), Error::Driver(q)) => same_failure(p, q),
        (Error::InvalidUpdate { message: p }, Error::InvalidUpdate { message: q }) => p@ == q@,
        (Error::VersionConflict { collection: c, id: i }, Error::VersionConflict { collection: d, id: j }) => c == d && i@ == j@,
        (Error::ConditionFailed { collection: c, id: i }, Error::ConditionFailed { collection: d, id: j }) => c == d && i@ == j@,
        (Error::NotFound { collection: c, id: i }, Error::NotFound { collection: d, id: j }) => c == d && i@ == j@,
        (Error::TransactionTimeout { attempts: n, last: p }, Error::TransactionTimeout { attempts: m, last: q }) => n == m
            && same_failure(p, q),
        (Error::CommitFailed(p), Error::CommitFailed(q)) => same_failure(p, q),
        (Error::IndexDrift(p), Error::IndexDrift(q)) => p.view_diff() == q.view_diff(),
        (Error::Bulk(p), Error::Bulk(q)) => p.write_errors@ == q.write_errors@ && p.applied@ == q.applied@,
        _ => false,
    }
}

impl Error {
    /// A copy of the error.
    pub fn duplicate(&self) -> (r: Error)
        ensures
            same_error(r, *self),
    {
        match self {
            Error::Driver(e) => Error::Driver(e.duplicate()),
            Error::InvalidUpdate { message } => Error::InvalidUpdate { message: message.clone() },
            Error::VersionConflict { collection, id } => Error::VersionConflict { collection: *collection, id: id.duplicate() },
            Error::ConditionFailed { collection, id } => Error::ConditionFailed { collection: *collection, id: id.duplicate() },
            Error::NotFound { collection, id } => Error::NotFound { collection: *collection, id: id.duplicate() },
            Error::TransactionTimeout { attempts, last } => Error::TransactionTimeout { attempts: *attempts, last: last.duplicate() },
            Error::CommitFailed(e) => Error::CommitFailed(e.duplicate()),
            Error::IndexDrift(d) => Error::IndexDrift(d.duplicate()),
            Error::Bulk(r) => Error::Bulk(BulkReport { write_errors: copy_items(&r.write_errors), applied: copy_items(&r.applied) }),
        }
    }
    /// The error is a driver or commit failure that carries the transient
    /// transaction label.
    pub open spec fn spec_is_transient(&self) -> bool {
        match self {
            Error::Driver(e) => e.has_label(transient_label()),
            Error::CommitFailed(e) => e.has_label(transient_label()),
            _ => false,
        }
    }

    pub fn is_transient(&self) -> (b: bool)
        ensures
            b == self.spec_is_transient(),
    {
        match self {
            Error::Driver(e) => e.contains_label(transient_label_text()),
            Error::CommitFailed(e) => e.contains_label(transient_label_text()),
            _ => false,
        }
    }

    /// The error reports a duplicate key: a driver failure with code 11000, or
    /// a bulk report with a write error of that code.
    pub open spec fn spec_is_duplicate_key(&self) -> bool {
        match self {
            Error::Driver(e) => e.spec_is_duplicate_key(),
            Error::Bulk(report) => exists|i: int|
                0 <= i < report.write_errors@.len() && report.write_errors@[i].1
                    == DUPLICATE_KEY_CODE,
            _ => false,
        }
    }

    pub fn is_duplicate_key(&self) -> (b: bool)
        ensures
            b == self.spec_is_duplicate_key(),
    {
        match self {
            Error::Driver(e) => e.is_duplicate_key(),
            Error::Bulk(report) => any_duplicate_code(&report.write_errors),
            _ => false,
        }
    }

    /// The driver failure inside a driver or commit error.
    pub fn as_driver(&self) -> (r: Option<&DriverError>)
        ensures
            match self {
                Error::Driver(e) => r == Some(e),
                Error::CommitFailed(e) => r == Some(e),
                _ => r is None,
            },
    {
        match self {
            Error::Driver(e) => Some(e),
            Error::CommitFailed(e) => Some(e),
            _ => None,
        }
    }
}

} // verus!

//! The decisions of the write operations: lock-guarded filters, what a write
//! that matched nothing means, the queue of a bulk write and what its failure
//! tells.
use vstd::prelude::*;

use crate::bson::{
    Bson, BsonV, DocV, Document, array_view, doc_get, doc_insert, has_key, is_first_key, lemma_array_view,
    lemma_first_key_unique,
};
use crate::doc::{
    Doc, Lock, id_key, id_key_text, lemma_insert_other, lemma_insert_remove, lemma_versioned_round_trip, spec_split,
    spec_stored, stored_document,
};
use crate::version::Version;
use crate::entity::Entity;
use crate::error::{BulkReport, DriverError, DriverErrorKind, Error, copy_items};
use crate::filter::{Filter, and_op, combined_doc};
use crate::partial::{BulkClass, classify_bulk_failure, classify_spec};
use crate::text::owned;
use crate::update::Update;

verus! {

broadcast use vstd::string::group_string_axioms;

/// The filter that finds a document at its current lock: `{ _id: id }` with
/// the lock written in; with an extra condition, `{ $and: [that, extra] }`.
pub open spec fn lock_filter_spec<L: Lock>(id: BsonV, lock: L, field: Seq<char>, extra: Option<DocV>) -> DocV {
    let base = lock.spec_write(seq![(id_key(), id)], field);
    match extra {
        None => base,
        Some(x) => combined_doc(seq![base, x], and_op()),
    }
}

/// The filter that finds the document with id `id` at lock `lock` (stored
/// under `field`), and also satisfies `extra` when there is one; the failure
/// `extra` carries, if any.
pub fn version_filter<E: Entity>(id: Bson, lock: &E::Lock, field: &str, extra: Option<Filter<E>>) -> (r: Result<Document, Error>)
    ensures
        match extra {
            None => r matches Ok(d) && d@ == lock_filter_spec(id@, *lock, field@, None),
            Some(x) => match x.spec_error() {
                Some(e) => r == Err::<Document, Error>(e),
                None => r matches Ok(d) && d@ == lock_filter_spec(
                    id@,
                    *lock,
                    field@,
                    Some(x.spec_doc()),
                ),
            },
        },
{
    let mut base = Document::new();
    base.insert(owned(id_key_text()), id);
    assert(base@ =~= seq![(id_key(), id@)]);
    lock.copy().write(&mut base, field);
    match extra {
        None => Ok(base),
        Some(extra) => {
            let x = match extra.into_document() {
                Ok(x) => x,
                Err(e) => return Err(e),
            };
            let mut items: Vec<Bson> = Vec::new();
            let ghost b = base@;
            let ghost xv = x@;
            items.push(Bson::Document(base));
            items.push(Bson::Document(x));
            proof {
                lemma_array_view(items@);
                assert(array_view(items@) =~= seq![b, xv].map_values(|d: DocV| BsonV::Doc(d)));
            }
            let mut d = Document::new();
            d.insert(owned("$and"), Bson::Array(items));
            assert(d@ =~= combined_doc(seq![b, xv], and_op()));
            Ok(d)
        },
    }
}

/// What a save writes, with the lock stored under `field`: the id, the filter
/// at the current lock, the replacement with the next lock, and the next lock.
pub fn prepare_save<E: Entity>(
    id: Bson,
    body: Document,
    doc: &Doc<E>,
    field: &str,
    extra: Option<Filter<E>>,
) -> (r: Result<(Bson, Document, Document, E::Lock), Error>)
    requires
        doc.spec_version().can_advance(),
    ensures
        match extra {
            Some(x) if x.spec_error() is Some => r == Err::<(Bson, Document, Document, E::Lock), Error>(x.spec_error()->0),
            _ => r matches Ok(t) && {
                &&& t.0@ == id@
                &&& t.1@ == lock_filter_spec(id@, doc.spec_version(), field@, match extra {
                    Some(x) => Some(x.spec_doc()),
                    None => None,
                })
                &&& t.2@ == doc.spec_version().spec_next().spec_write(
                    spec_stored(body@, id@, doc.spec_version(), field@),
                    field@,
                )
                &&& t.3 == doc.spec_version().spec_next()
            },
        },
{
    let lock = doc.version();
    let next = lock.copy().next();
    let filter = match version_filter::<E>(id.duplicate(), &lock, field, extra) {
        Ok(f) => f,
        Err(e) => return Err(e),
    };
    let mut replacement = stored_document(body, id.duplicate(), lock, field);
    let n2 = next.copy();
    n2.write(&mut replacement, field);
    Ok((id, filter, replacement, next))
}

/// A save matched no document: a conditional save failed its condition,
/// otherwise the lock (or, unversioned, the document) was not found.
pub fn save_miss<E: Entity>(collection: &'static str, conditional: bool, id: Bson) -> (e: Error)
    ensures
        conditional ==> (e matches Error::ConditionFailed { collection: c, id: i } && c == collection && i@ == id@),
        !conditional ==> E::Lock::spec_miss(collection, id, e),
{
    if conditional {
        Error::ConditionFailed { collection, id }
    } else {
        E::Lock::miss(collection, id)
    }
}

/// The outcome of a save that matched `matched_count` documents.
pub fn save_outcome<E: Entity>(collection: &'static str, matched_count: u64, conditional: bool, id: Bson) -> (r: Result<(), Error>)
    ensures
        matched_count > 0 ==> r is Ok,
        matched_count == 0 && conditional ==> (r matches Err(Error::ConditionFailed { collection: c, id: i }) && c
            == collection && i@ == id@),
        matched_count == 0 && !conditional ==> (r matches Err(e) && E::Lock::spec_miss(collection, id, e)),
{
    if matched_count == 0 {
        Err(save_miss::<E>(collection, conditional, id))
    } else {
        Ok(())
    }
}

/// The outcome of a lock-guarded delete that deleted `deleted_count` documents.
pub fn delete_outcome<E: Entity>(collection: &'static str, deleted_count: u64, id: Bson) -> (r: Result<(), Error>)
    ensures
        deleted_count > 0 ==> r is Ok,
        deleted_count == 0 ==> (r matches Err(e) && E::Lock::spec_miss(collection, id, e)),
{
    if deleted_count == 0 {
        Err(E::Lock::miss(collection, id))
    } else {
        Ok(())
    }
}

/// Appends element filters to the array filters of an update's options.
pub fn merge_array_filters(options: &mut Option<Vec<Document>>, element_filters: Vec<Document>)
    ensures
        element_filters@.len() == 0 ==> *final(options) == *old(options),
        element_filters@.len() > 0 ==> (*final(options) matches Some(v) && v@ == match *old(options) {
            Some(o) => o@,
            None => Seq::empty(),
        } + element_filters@),
{
    if element_filters.len() > 0 {
        let mut current = match options.take() {
            Some(v) => v,
            None => Vec::new(),
        };
        let mut rest = element_filters;
        current.append(&mut rest);
        *options = Some(current);
    }
}

/// One operation queued in a bulk write.
#[derive(Debug, PartialEq)]
pub enum WriteOp {
    InsertOne { document: Document },
    UpdateOne { filter: Document, update: Document, array_filters: Option<Vec<Bson>>, upsert: Option<bool> },
    UpdateMany { filter: Document, update: Document, array_filters: Option<Vec<Bson>>, upsert: Option<bool> },
    DeleteOne { filter: Document },
    DeleteMany { filter: Document },
}

/// The queue of a bulk write: its operations, the documents it inserts with
/// their operation's position, whether it is ordered, and the first failure
/// met while queueing (which refuses the whole write).
pub struct BulkBuilder<E: Entity> {
    ops: Vec<WriteOp>,
    docs: Vec<(usize, Doc<E>)>,
    ordered: Option<bool>,
    deferred_error: Option<Error>,
}

impl<E: Entity> BulkBuilder<E> {
    pub closed spec fn spec_ops(&self) -> Seq<WriteOp> {
        self.ops@
    }

    pub closed spec fn spec_docs(&self) -> Seq<(usize, Doc<E>)> {
        self.docs@
    }

    pub closed spec fn spec_ordered(&self) -> Option<bool> {
        self.ordered
    }

    pub closed spec fn spec_error(&self) -> Option<Error> {
        self.deferred_error
    }

    /// An empty queue.
    pub fn new() -> (b: Self)
        ensures
            b.spec_ops().len() == 0,
            b.spec_docs().len() == 0,
            b.spec_ordered() is None,
            b.spec_error() is None,
    {
        BulkBuilder { ops: Vec::new(), docs: Vec::new(), ordered: None, deferred_error: None }
    }

    fn defer_rejection(&mut self, error: Error)
        ensures
            final(self).spec_ops() == old(self).spec_ops(),
            final(self).spec_docs() == old(self).spec_docs(),
            final(self).spec_ordered() == old(self).spec_ordered(),
            final(self).spec_error() == if old(self).spec_error() is Some {
                old(self).spec_error()
            } else {
                Some(error)
            },
    {
        if self.deferred_error.is_none() {
            self.deferred_error = Some(error);
        }
    }

    /// Queues the insert of `doc`, whose stored form is `stored` (or the
    /// failure to encode it); the document is remembered with its position.
    pub fn insert_doc(self, doc: Doc<E>, stored: Result<Document, Error>) -> (b: Self)
        ensures
            b.spec_ops() == self.spec_ops().push(b.spec_ops().last()),
            b.spec_ops().last() is InsertOne,
            stored matches Ok(d) ==> b.spec_ops().last()->InsertOne_document@ == d@,
            b.spec_docs() == self.spec_docs().push((self.spec_ops().len() as usize, doc)),
            b.spec_ordered() == self.spec_ordered(),
            b.spec_error() == match stored {
                Ok(_) => self.spec_error(),
                Err(e) => if self.spec_error() is Some {
                    self.spec_error()
                } else {
                    Some(e)
                },
            },
    {
        let mut this = self;
        let document = match stored {
            Ok(d) => d,
            Err(e) => {
                this.defer_rejection(e);
                Document::new()
            },
        };
        let n = this.ops.len();
        this.docs.push((n, doc));
        this.ops.push(WriteOp::InsertOne { document });
        this
    }

    /// `after` is `before` with an update of `filter` by `update` queued:
    /// of every match when `many`, else of the first, with the given upsert
    /// flag; or, when either is rejected, with the first rejection deferred.
    pub open spec fn queued_update(before: Self, after: Self, filter: Filter<E>, update: Update<E>, many: bool, upsert: Option<bool>) -> bool {
        &&& (after.spec_docs() =~= before.spec_docs())
        &&& (after.spec_ordered() == before.spec_ordered())
        &&& (filter.spec_error() is None && update.spec_error() is None ==> {
                &&& after.spec_ops().len() == before.spec_ops().len() + 1
                &&& after.spec_ops().drop_last() =~= before.spec_ops()
                &&& after.spec_error() == before.spec_error()
                &&& (many ==> (after.spec_ops().last() matches WriteOp::UpdateMany { filter: f, update: u, array_filters: a, upsert: up }
                    && f@ == filter.spec_doc() && u@ == update.spec_doc() && a is None && up == upsert))
                &&& (!many ==> (after.spec_ops().last() matches WriteOp::UpdateOne { filter: f, update: u, array_filters: a, upsert: up }
                    && f@ == filter.spec_doc() && u@ == update.spec_doc() && a is None && up == upsert))
            })
        &&& (filter.spec_error() is Some || update.spec_error() is Some ==> {
                &&& after.spec_ops() =~= before.spec_ops()
                &&& after.spec_error() == if before.spec_error() is Some {
                    before.spec_error()
                } else if filter.spec_error() is Some {
                    filter.spec_error()
                } else {
                    update.spec_error()
                }
            })
    }

    fn push_update(self, filter: Filter<E>, update: Update<E>, many: bool, upsert: Option<bool>) -> (b: Self)
        ensures
            Self::queued_update(self, b, filter, update, many, upsert),
    {
        let mut this = self;
        match (filter.into_document(), update.into_document()) {
            (Ok(filter), Ok(update)) => {
                let op = if many {
                    WriteOp::UpdateMany { filter, update, array_filters: None, upsert }
                } else {
                    WriteOp::UpdateOne { filter, update, array_filters: None, upsert }
                };
                this.ops.push(op);
            },
            (Err(error), _) => this.defer_rejection(error),
            (_, Err(error)) => this.defer_rejection(error),
        }
        this
    }

    /// Queues an update of the first document matching `filter`.
    pub fn update_one(self, filter: Filter<E>, update: Update<E>) -> (b: Self)
        ensures
            Self::queued_update(self, b, filter, update, false, None),
    {
        self.push_update(filter, update, false, None)
    }

    /// Queues an update of every document matching `filter`.
    pub fn update_many(self, filter: Filter<E>, update: Update<E>) -> (b: Self)
        ensures
            Self::queued_update(self, b, filter, update, true, None),
    {
        self.push_update(filter, update, true, None)
    }

    /// Queues an update of the first match, or an insert when nothing matches.
    pub fn upsert_one(self, filter: Filter<E>, update: Update<E>) -> (b: Self)
        ensures
            Self::queued_update(self, b, filter, update, false, Some(true)),
    {
        self.push_update(filter, update, false, Some(true))
    }

    /// Queues the delete of the first document matching `filter`.
    pub fn delete_one(self, filter: Filter<E>) -> (b: Self)
        ensures
            filter.spec_error() is None ==> (b.spec_ops() == self.spec_ops().push(b.spec_ops().last())
                && (b.spec_ops().last() matches WriteOp::DeleteOne { filter: f } && f@ == filter.spec_doc())
                && b.spec_error() == self.spec_error()),
            filter.spec_error() is Some ==> b.spec_ops() == self.spec_ops() && b.spec_error() is Some,
            b.spec_docs() == self.spec_docs(),
    {
        let mut this = self;
        match filter.into_document() {
            Ok(filter) => this.ops.push(WriteOp::DeleteOne { filter }),
            Err(error) => this.defer_rejection(error),
        }
        this
    }

    /// Queues the delete of every document matching `filter`.
    pub fn delete_many(self, filter: Filter<E>) -> (b: Self)
        ensures
            filter.spec_error() is None ==> (b.spec_ops() == self.spec_ops().push(b.spec_ops().last())
                && (b.spec_ops().last() matches WriteOp::DeleteMany { filter: f } && f@ == filter.spec_doc())
                && b.spec_error() == self.spec_error()),
            filter.spec_error() is Some ==> b.spec_ops() == self.spec_ops() && b.spec_error() is Some,
            b.spec_docs() == self.spec_docs(),
    {
        let mut this = self;
        match filter.into_document() {
            Ok(filter) => this.ops.push(WriteOp::DeleteMany { filter }),
            Err(error) => this.defer_rejection(error),
        }
        this
    }

    /// Whether the write stops at its first failure (the default) or not.
    pub fn ordered(self, ordered: bool) -> (b: Self)
        ensures
            b.spec_ordered() == Some(ordered),
            b.spec_ops() == self.spec_ops(),
            b.spec_docs() == self.spec_docs(),
            b.spec_error() == self.spec_error(),
    {
        let mut this = self;
        this.ordered = Some(ordered);
        this
    }

    /// The queued operations, the inserted documents and whether the write is
    /// ordered; or the first failure met while queueing.
    pub fn into_parts(self) -> (r: Result<(Vec<WriteOp>, Vec<(usize, Doc<E>)>, bool), Error>)
        ensures
            match self.spec_error() {
                Some(e) => r == Err::<(Vec<WriteOp>, Vec<(usize, Doc<E>)>, bool), Error>(e),
                None => r matches Ok(t) && t.0@ == self.spec_ops() && t.1@ == self.spec_docs()
                    && t.2 == match self.spec_ordered() {
                    Some(o) => o,
                    None => true,
                },
            },
    {
        match self.deferred_error {
            Some(e) => Err(e),
            None => {
                let ordered = match self.ordered {
                    Some(o) => o,
                    None => true,
                };
                Ok((self.ops, self.docs, ordered))
            },
        }
    }
}

/// The indices of a bulk failure's write errors.
pub open spec fn error_indices(errors: Seq<(usize, i32)>) -> Seq<usize> {
    errors.map_values(|e: (usize, i32)| e.0)
}

/// What a failed bulk write of `queued` operations reports: a per-operation
/// report when the failure names failing operations (and wraps nothing), the
/// driver failure otherwise; with the operations known to be applied, if any.
pub fn classify(error: DriverError, ordered: bool, queued: usize) -> (r: (Error, Option<Vec<usize>>))
    ensures
        match error.kind {
            DriverErrorKind::BulkWrite { errors } => match classify_spec(ordered, queued as nat, error_indices(errors@), error.has_source) {
                Some(applied) => (r.0 matches Error::Bulk(report) && report.write_errors@ == errors@ && report.applied@ == applied)
                    && (r.1 matches Some(a) && a@ == applied),
                None => r.0 == Error::Driver(error) && r.1 is None,
            },
            DriverErrorKind::InvalidArgument | DriverErrorKind::BsonSerialization => r.0 == Error::Driver(error) && (r.1 matches Some(a) && a@.len() == 0),
            _ => r.0 == Error::Driver(error) && r.1 is None,
        },
{
    let nothing = error.nothing_sent();
    match &error.kind {
        DriverErrorKind::BulkWrite { errors } => {
            let indices = indices_of(errors);
            match classify_bulk_failure(ordered, queued, &indices, error.has_source) {
                BulkClass::PerOp { applied } => {
                    let report = BulkReport { write_errors: copy_items(errors), applied: copy_items(&applied) };
                    (Error::Bulk(report), Some(applied))
                },
                BulkClass::Opaque => (Error::Driver(error), None),
            }
        },
        _ => {
            if nothing {
                (Error::Driver(error), Some(Vec::new()))
            } else {
                (Error::Driver(error), None)
            }
        },
    }
}

/// Writing a key twice leaves only the second value.
pub proof fn lemma_insert_twice(d: DocV, k: Seq<char>, a: BsonV, b: BsonV)
    requires
        !has_key(d, k),
    ensures
        doc_insert(doc_insert(d, k, a), k, b) == doc_insert(d, k, b),
{
    let e = doc_insert(d, k, a);
    assert(e == d.push((k, a)));
    assert(is_first_key(e, k, d.len() as int));
    lemma_first_key_unique(e, k, d.len() as int);
    assert(e.update(d.len() as int, (k, b)) =~= d.push((k, b)));
}

/// A save asks for the document at its current version, and what it writes,
/// read back, is the same id and body at the next version (when the body
/// uses neither `_id` nor the lock's key).
pub proof fn lemma_save_writes_next_version(body: DocV, id: BsonV, v: Version, field: Seq<char>)
    requires
        !has_key(body, id_key()),
        !has_key(body, field),
        field != id_key(),
        v.can_advance(),
    ensures
        doc_get(lock_filter_spec(id, v, field, None), id_key()) == Some(id),
        doc_get(lock_filter_spec(id, v, field, None), field) == Some(BsonV::Int64(v.spec_value())),
        spec_split::<Version>(v.spec_next().spec_write(spec_stored(body, id, v, field), field), field)
            == Some((id, v.spec_next(), body)),
{
    let base = seq![(id_key(), id)];
    assert(!has_key(Seq::<(Seq<char>, BsonV)>::empty(), id_key()));
    assert(base == doc_insert(Seq::empty(), id_key(), id));
    lemma_insert_remove(Seq::empty(), id_key(), id);
    assert(!has_key(base, field)) by {
        if has_key(base, field) {
            assert(base[0].0 == field);
        }
    }
    lemma_insert_remove(base, field, BsonV::Int64(v.spec_value()));
    lemma_insert_other(base, field, BsonV::Int64(v.spec_value()), id_key());
    let with_id = doc_insert(body, id_key(), id);
    lemma_insert_other(body, id_key(), id, field);
    lemma_insert_twice(with_id, field, BsonV::Int64(v.spec_value()), BsonV::Int64(v.spec_next().spec_value()));
    lemma_versioned_round_trip(body, id, v.spec_next(), field);
}

/// The indices of a failed write's write errors.
fn indices_of(errors: &Vec<(usize, i32)>) -> (r: Vec<usize>)
    ensures
        r@ == error_indices(errors@),
{
    let mut indices: Vec<usize> = Vec::new();
    let mut i: usize = 0;
    while i < errors.len()
        invariant
            i <= errors@.len(),
            indices@ == error_indices(errors@).take(i as int),
        decreases errors.len() - i,
    {
        indices.push(errors[i].0);
        i = i + 1;
        assert(indices@ =~= error_indices(errors@).take(i as int));
    }
    assert(error_indices(errors@).take(i as int) == error_indices(errors@));
    indices
}

/// Which of `queued` documents a failed multi-document insert is known to
/// have written: for a failure that names failing documents (and wraps
/// nothing), those the per-operation accounting gives; none for a failure
/// raised before anything was sent; unknown (`None`) otherwise.
pub fn insert_many_applied(error: &DriverError, ordered: bool, queued: usize) -> (r: Option<Vec<usize>>)
    ensures
        match error.kind {
            DriverErrorKind::InsertMany { errors } => match classify_spec(ordered, queued as nat, error_indices(errors@), error.has_source) {
                Some(applied) => r matches Some(a) && a@ == applied,
                None => r is None,
            },
            DriverErrorKind::InvalidArgument | DriverErrorKind::BsonSerialization => r matches Some(a) && a@.len() == 0,
            _ => r is None,
        },
{
    match &error.kind {
        DriverErrorKind::InsertMany { errors } => {
            let indices = indices_of(errors);
            match classify_bulk_failure(ordered, queued, &indices, error.has_source) {
                BulkClass::PerOp { applied } => Some(applied),
                BulkClass::Opaque => None,
            }
        },
        _ => {
            if error.nothing_sent() {
                Some(Vec::new())
            } else {
                None
            }
        },
    }
}

/// An operation run on its own, outside any transaction.
pub struct Detached;

/// An operation that selects its documents by a filter.
pub struct ByFilter;

/// An operation that selects one document by its id.
pub struct ById;

} // verus!

//! Stored documents: an entity body with its id and, for versioned entities,
//! its version lock, and how they are laid out in the stored document.
use vstd::prelude::*;

use crate::bson::{
    Bson, BsonV, DocV, Document, doc_get, doc_insert, doc_remove, has_key, is_first_key,
    first_key, lemma_first_key, lemma_first_key_unique,
};
use crate::entity::Entity;
use crate::error::Error;
use crate::text::owned;
use crate::version::{DecodeError, Version, version_of};

verus! {

broadcast use {
    vstd::string::group_string_axioms,
    crate::version::Version::lemma_value_determines,
    crate::version::Version::lemma_committed_value,
    crate::version::Version::lemma_committed_of_value,
};

/// The key of a stored document's id.
pub open spec fn id_key() -> Seq<char> {
    "_id"@
}

pub fn id_key_text() -> (s: &'static str)
    ensures
        s@ == id_key(),
{
    "_id"
}

/// The lock that guards concurrent writes of a document: `Version` for
/// versioned entities, `()` for the others.
pub trait Lock: Sized {
    /// The lock of a document that was never written.
    spec fn spec_first() -> Self;

    /// The lock after one more committed write.
    spec fn spec_next(self) -> Self;

    /// Another write can be counted.
    spec fn can_advance(self) -> bool;

    /// A stored document after the lock is written into it under `field`.
    spec fn spec_write(self, d: DocV, field: Seq<char>) -> DocV;

    /// The lock read out of a stored document, and what is left of it; `None`
    /// when it cannot be read.
    spec fn spec_read(d: DocV, field: Seq<char>) -> Option<(Self, DocV)>;

    /// `e` is the error of a read of `field` out of `d` that fails.
    spec fn read_failure(d: DocV, field: Seq<char>, e: DecodeError) -> bool;

    /// The error a write meets when no document matched its id and lock.
    spec fn spec_miss(collection: &'static str, id: Bson, e: Error) -> bool;

    fn first() -> (r: Self)
        ensures
            r == Self::spec_first(),
    ;

    fn copy(&self) -> (r: Self)
        ensures
            r == *self,
    ;

    /// Whether another write can be counted.
    fn advances(&self) -> (b: bool)
        ensures
            b == self.can_advance(),
    ;

    fn next(self) -> (r: Self)
        requires
            self.can_advance(),
        ensures
            r == self.spec_next(),
    ;

    fn read(stored: &mut Document, field: &str) -> (r: Result<Self, DecodeError>)
        ensures
            match Self::spec_read(old(stored)@, field@) {
                Some((l, rest)) => r == Ok::<Self, DecodeError>(l) && final(stored)@ == rest,
                None => r matches Err(e) && Self::read_failure(old(stored)@, field@, e),
            },
    ;

    fn write(self, stored: &mut Document, field: &str)
        ensures
            final(stored)@ == self.spec_write(old(stored)@, field@),
    ;

    fn miss(collection: &'static str, id: Bson) -> (e: Error)
        ensures
            Self::spec_miss(collection, id, e),
    ;
}

impl Lock for Version {
    open spec fn spec_first() -> Version {
        Version::committed_spec(1)
    }

    open spec fn spec_next(self) -> Version {
        Version::committed_spec((self.spec_value() + 1) as i64)
    }

    open spec fn can_advance(self) -> bool {
        self.spec_value() < i64::MAX
    }

    /// The version is stored as a 64-bit integer under the lock field.
    open spec fn spec_write(self, d: DocV, field: Seq<char>) -> DocV {
        doc_insert(d, field, BsonV::Int64(self.spec_value()))
    }

    /// The lock field is taken out and must read as an integral version.
    open spec fn spec_read(d: DocV, field: Seq<char>) -> Option<(Version, DocV)> {
        match doc_get(d, field) {
            Some(b) => match version_of(b) {
                Some(v) => Some((Version::committed_spec(v), doc_remove(d, field))),
                None => None,
            },
            None => None,
        }
    }

    /// A missing lock names its field; a lock that is there but no version
    /// says why it is none.
    open spec fn read_failure(d: DocV, field: Seq<char>, e: DecodeError) -> bool {
        match doc_get(d, field) {
            None => e matches DecodeError::MissingLock { field: f } && f@ == field,
            Some(b) => match b {
                BsonV::Double(f) => e == DecodeError::NotIntegral(f),
                _ => e is InvalidType,
            },
        }
    }

    open spec fn spec_miss(collection: &'static str, id: Bson, e: Error) -> bool {
        e matches Error::VersionConflict { collection: c, id: i } && c == collection && i@ == id@
    }

    fn first() -> (r: Version) {
        Version::committed(1)
    }

    fn copy(&self) -> (r: Version) {
        *self
    }

    fn advances(&self) -> (b: bool) {
        self.value() < i64::MAX
    }

    fn next(self) -> (r: Version) {
        Version::committed(self.value() + 1)
    }

    fn read(stored: &mut Document, field: &str) -> (r: Result<Version, DecodeError>) {
        match stored.remove(field) {
            Some(value) => Version::from_bson(&value),
            None => Err(DecodeError::MissingLock { field: owned(field) }),
        }
    }

    fn write(self, stored: &mut Document, field: &str) {
        stored.insert(owned(field), Bson::Int64(self.value()));
    }

    fn miss(collection: &'static str, id: Bson) -> (e: Error) {
        Error::VersionConflict { collection, id }
    }
}

impl Lock for () {
    open spec fn spec_first() -> () {
        ()
    }

    open spec fn spec_next(self) -> () {
        ()
    }

    open spec fn can_advance(self) -> bool {
        true
    }

    /// Unversioned documents store no lock.
    open spec fn spec_write(self, d: DocV, field: Seq<char>) -> DocV {
        d
    }

    open spec fn spec_read(d: DocV, field: Seq<char>) -> Option<((), DocV)> {
        Some(((), d))
    }

    /// Reading no lock never fails.
    open spec fn read_failure(d: DocV, field: Seq<char>, e: DecodeError) -> bool {
        false
    }

    open spec fn spec_miss(collection: &'static str, id: Bson, e: Error) -> bool {
        e matches Error::NotFound { collection: c, id: i } && c == collection && i@ == id@
    }

    fn first() -> (r: ()) {
    }

    fn copy(&self) -> (r: ()) {
    }

    fn advances(&self) -> (b: bool) {
        true
    }

    fn next(self) -> (r: ()) {
    }

    fn read(stored: &mut Document, field: &str) -> (r: Result<(), DecodeError>) {
        Ok(())
    }

    fn write(self, stored: &mut Document, field: &str) {
    }

    fn miss(collection: &'static str, id: Bson) -> (e: Error) {
        Error::NotFound { collection, id }
    }
}

/// The stored layout of a document: the body's entries, then `_id`, then the
/// lock.
pub open spec fn spec_stored<L: Lock>(body: DocV, id: BsonV, lock: L, field: Seq<char>) -> DocV {
    lock.spec_write(doc_insert(body, id_key(), id), field)
}

/// A stored document read back: its id, its lock and its body; `None` when the
/// id is missing or the lock cannot be read.
pub open spec fn spec_split<L: Lock>(stored: DocV, field: Seq<char>) -> Option<(BsonV, L, DocV)> {
    match doc_get(stored, id_key()) {
        Some(id) => match L::spec_read(doc_remove(stored, id_key()), field) {
            Some((lock, body)) => Some((id, lock, body)),
            None => None,
        },
        None => None,
    }
}

/// Lays a document out for storage: the encoded body, `_id`, then the lock.
pub fn stored_document<L: Lock>(body: Document, id: Bson, lock: L, field: &str) -> (d: Document)
    ensures
        d@ == spec_stored(body@, id@, lock, field@),
{
    let mut stored = body;
    stored.insert(owned(id_key_text()), id);
    lock.write(&mut stored, field);
    stored
}

/// Reads a stored document back into its id, its lock and its encoded body.
pub fn split_stored<L: Lock>(stored: Document, field: &str) -> (r: Result<(Bson, L, Document), DecodeError>)
    ensures
        match spec_split::<L>(stored@, field@) {
            Some((id, lock, body)) => r matches Ok(t) && t.0@ == id && t.1 == lock && t.2@ == body,
            None => r is Err,
        },
        !has_key(stored@, id_key()) ==> r == Err::<(Bson, L, Document), DecodeError>(DecodeError::MissingId),
        has_key(stored@, id_key()) && spec_split::<L>(stored@, field@) is None ==> (r matches Err(e)
            && L::read_failure(doc_remove(stored@, id_key()), field@, e)),
{
    let mut stored = stored;
    let id = match stored.remove(id_key_text()) {
        Some(id) => id,
        None => return Err(DecodeError::MissingId),
    };
    let lock = match L::read(&mut stored, field) {
        Ok(lock) => lock,
        Err(e) => return Err(e),
    };
    Ok((id, lock, stored))
}

/// Inserting a new key and taking it out again gives the document back.
pub proof fn lemma_insert_remove(d: DocV, k: Seq<char>, v: BsonV)
    requires
        !has_key(d, k),
    ensures
        doc_get(doc_insert(d, k, v), k) == Some(v),
        doc_remove(doc_insert(d, k, v), k) == d,
{
    let e = doc_insert(d, k, v);
    assert(e == d.push((k, v)));
    assert(is_first_key(e, k, d.len() as int));
    lemma_first_key_unique(e, k, d.len() as int);
    assert(e.remove(d.len() as int) =~= d);
}

/// Inserting under one key leaves what another key holds unchanged.
pub proof fn lemma_insert_other(d: DocV, k: Seq<char>, v: BsonV, other: Seq<char>)
    requires
        k != other,
    ensures
        has_key(doc_insert(d, k, v), other) == has_key(d, other),
        doc_get(doc_insert(d, k, v), other) == doc_get(d, other),
{
    let e = doc_insert(d, k, v);
    if has_key(d, k) {
        lemma_first_key(d, k, choose|w: int| 0 <= w < d.len() && d[w].0 == k);
    }
    let p = first_key(d, k);
    if has_key(d, other) {
        let i = first_key(d, other);
        lemma_first_key(d, other, choose|j: int| 0 <= j < d.len() && d[j].0 == other);
        assert(e[i].0 == other);
        assert(is_first_key(e, other, i));
        lemma_first_key_unique(e, other, i);
    }
    if has_key(e, other) {
        let j = choose|j: int| 0 <= j < e.len() && e[j].0 == other;
        if has_key(d, k) {
            assert(j != p);
            assert(d[j].0 == other);
        } else {
            assert(j < d.len());
            assert(d[j].0 == other);
        }
    }
}

/// A versioned document read back from its stored layout gives the same id,
/// version and body, when the body uses neither `_id` nor the lock's key.
pub proof fn lemma_versioned_round_trip(body: DocV, id: BsonV, v: Version, field: Seq<char>)
    requires
        !has_key(body, id_key()),
        !has_key(body, field),
        field != id_key(),
    ensures
        spec_split::<Version>(spec_stored(body, id, v, field), field) == Some((id, v, body)),
{
    let with_id = doc_insert(body, id_key(), id);
    lemma_insert_remove(body, id_key(), id);
    lemma_insert_other(body, id_key(), id, field);
    let stored = doc_insert(with_id, field, BsonV::Int64(v.spec_value()));
    lemma_insert_other(with_id, field, BsonV::Int64(v.spec_value()), id_key());
    lemma_insert_remove(with_id, field, BsonV::Int64(v.spec_value()));
    let rest = doc_remove(stored, id_key());
    lemma_remove_then_other(with_id, field, BsonV::Int64(v.spec_value()), id_key());
    assert(rest == doc_insert(body, field, BsonV::Int64(v.spec_value())));
    lemma_insert_remove(body, field, BsonV::Int64(v.spec_value()));
    assert(Version::committed_spec(v.spec_value()) == v);
}

/// An unversioned document read back from its stored layout gives the same id
/// and body, when the body does not use `_id`.
pub proof fn lemma_unversioned_round_trip(body: DocV, id: BsonV, field: Seq<char>)
    requires
        !has_key(body, id_key()),
    ensures
        spec_split::<()>(spec_stored(body, id, (), field), field) == Some((id, (), body)),
{
    lemma_insert_remove(body, id_key(), id);
}

/// Taking out a key that was inserted before another key was appended leaves
/// the document with only the appended key.
pub proof fn lemma_remove_then_other(d: DocV, k: Seq<char>, v: BsonV, first: Seq<char>)
    requires
        k != first,
        !has_key(d, k),
        has_key(d, first),
    ensures
        doc_remove(doc_insert(d, k, v), first) == doc_insert(doc_remove(d, first), k, v),
{
    let e = doc_insert(d, k, v);
    let i = first_key(d, first);
    lemma_first_key(d, first, choose|j: int| 0 <= j < d.len() && d[j].0 == first);
    assert(e == d.push((k, v)));
    assert(is_first_key(e, first, i));
    lemma_first_key_unique(e, first, i);
    let r = d.remove(i);
    if has_key(r, k) {
        let j = choose|j: int| 0 <= j < r.len() && r[j].0 == k;
        if j < i {
            assert(d[j].0 == k);
        } else {
            assert(d[j + 1].0 == k);
        }
    }
    assert(e.remove(i) =~= r.push((k, v)));
}

/// A document of entity `E`: its id, its lock and its body.
pub struct Doc<E: Entity> {
    id: E::Id,
    version: E::Lock,
    pub body: E,
}

impl<E: Entity> Doc<E> {
    pub closed spec fn spec_id(&self) -> E::Id {
        self.id
    }

    pub closed spec fn spec_version(&self) -> E::Lock {
        self.version
    }

    pub closed spec fn spec_body(&self) -> E {
        self.body
    }

    pub fn new(id: E::Id, version: E::Lock, body: E) -> (d: Self)
        ensures
            d.spec_id() == id,
            d.spec_version() == version,
            d.spec_body() == body,
    {
        Doc { id, version, body }
    }

    pub fn id(&self) -> (r: &E::Id)
        ensures
            *r == self.spec_id(),
    {
        &self.id
    }

    pub fn version(&self) -> (r: E::Lock)
        ensures
            r == self.spec_version(),
    {
        self.version.copy()
    }

    pub fn into_body(self) -> (r: E)
        ensures
            r == self.spec_body(),
    {
        self.body
    }

    pub fn into_parts(self) -> (r: (E::Id, E))
        ensures
            r.0 == self.spec_id(),
            r.1 == self.spec_body(),
    {
        (self.id, self.body)
    }

    /// Records a committed write: the document now carries `next`.
    pub fn settle(&mut self, next: E::Lock)
        ensures
            final(self).spec_version() == next,
            final(self).spec_id() == old(self).spec_id(),
            final(self).spec_body() == old(self).spec_body(),
    {
        self.version = next;
    }
}

/// A new document: its id, the first lock, and its body.
pub fn prepare<E: Entity>(id: E::Id, body: E) -> (d: Doc<E>)
    ensures
        d.spec_id() == id,
        d.spec_version() == E::Lock::spec_first(),
        d.spec_body() == body,
{
    Doc::new(id, E::Lock::first(), body)
}

} // verus!

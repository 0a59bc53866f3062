//! What a stored entity declares: its collection, id type, lock and indexes.
use vstd::prelude::*;

use core::marker::PhantomData;

use crate::doc::Lock;
use crate::index::IndexSpec;
use crate::version::Version;

verus! {

/// A type stored as the documents of one collection.
pub trait Entity: Sized {
    /// The type of the `_id` field.
    type Id;

    /// `Version` for versioned entities, `()` for the others.
    type Lock: Lock;

    /// The collection's name.
    fn collection() -> &'static str;

    /// The key under which the version lock is stored.
    fn version_field() -> &'static str;

    /// The indexes the entity declares.
    fn index_specs() -> Vec<&'static IndexSpec>;

    /// The indexes managed outside the entity that must exist.
    fn external_index_names() -> Vec<&'static str>;
}

/// Entities whose documents carry a version lock.
pub trait Versioned: Entity<Lock = Version> {}

/// Entities without a version lock; only these may be replaced wholesale.
pub trait Unversioned: Entity<Lock = ()> {}

/// Types stored inside an entity's documents.
pub trait Embedded {}

/// Id types the store can draw a fresh value of.
pub trait NewId: Sized {
    fn new_id() -> Self;
}

/// A type accepted for a rule `Rule` of the declarations.
pub trait Accepts<Rule> {}

/// The rule that a TTL index's key holds a date.
pub struct TtlKey;

/// Stands for a field written by a custom writer, whose stored type the
/// declaration cannot see.
pub struct CustomWritten;

impl Accepts<TtlKey> for CustomWritten {}

/// The driver's BSON date, carried through opaquely.
#[verifier::external_type_specification]
#[verifier::external_body]
pub struct ExBsonDateTime(mongodb::bson::DateTime);

impl Accepts<TtlKey> for mongodb::bson::DateTime {}

impl Accepts<TtlKey> for Option<mongodb::bson::DateTime> {}

/// One word of a field name spelled out as a type: eight bytes of the name,
/// then the rest.
pub struct Seg<const WORD: u128, Rest>(PhantomData<Rest>);

/// The end of a field name spelled out as a type.
pub struct End;

/// A stored field of `Self` named by the type `N`: its stored name, the type
/// its path carries and its declared type.
pub trait NestedField<N> {
    type Ty;

    type Declared;

    fn stored() -> &'static str;
}

} // verus!

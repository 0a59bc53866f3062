//! Typed field paths: what a field of an entity may be used for, and where it
//! is stored.
use vstd::prelude::*;

use core::marker::PhantomData;

use crate::bson::{Bson, Document, DocV};
use crate::error::{Error, same_error};
use crate::text::{owned, push_char, push_str};

verus! {

/// A field that may be matched and written.
pub struct Full;

/// A field that may only be matched (such as `_id`).
pub struct MatchOnly;

/// A positional path into array elements, which may only be written.
pub struct Positional;

/// A field stored through its serde representation.
pub struct Plain;

/// A field stored through a custom writer `X`.
pub struct Encoded<X>(PhantomData<X>);

/// A custom writer: turns a field value into its stored form.
pub trait Encode<T> {
    fn encode(value: &T) -> core::result::Result<Bson, Error>;
}

/// Closes the capability and array traits to this crate's types.
pub trait Sealed {}

impl Sealed for Full {}

impl Sealed for MatchOnly {}

impl Sealed for Positional {}

impl<T> Sealed for Vec<T> {}

impl<T> Sealed for Option<Vec<T>> {}

pub trait Capability: Sealed {}

impl Capability for Full {}

impl Capability for MatchOnly {}

impl Capability for Positional {}

/// Capabilities that allow matching.
pub trait Filterable: Capability {}

impl Filterable for Full {}

impl Filterable for MatchOnly {}

/// Capabilities that allow writing.
pub trait Updatable: Capability {}

impl Updatable for Full {}

impl Updatable for Positional {}

/// Array-valued field types, with their element type.
pub trait ArrayLike: Sealed {
    type Elem;
}

impl<T> ArrayLike for Vec<T> {
    type Elem = T;
}

impl<T> ArrayLike for Option<Vec<T>> {
    type Elem = T;
}

/// Field types whose stored form has a range order.
pub trait Ordered {}

impl Ordered for i8 {}

impl Ordered for i16 {}

impl Ordered for i32 {}

impl Ordered for i64 {}

impl Ordered for u8 {}

impl Ordered for u16 {}

impl Ordered for u32 {}

impl Ordered for u64 {}

impl Ordered for String {}

impl<T: Ordered> Ordered for Option<T> {}

/// Range operators are available for `T` under this encoding.
pub trait OrderedIn<T> {}

impl<T: Ordered> OrderedIn<T> for Plain {}

impl<T, X> OrderedIn<T> for Encoded<X> {}

/// The path of a field of entity `E`, of type `T`, with capability `Cap`,
/// stored under encoding `Enc`; positional paths carry their element filters
/// and any failure met while building them.
#[derive(Debug)]
pub struct Field<E, T, Cap = Full, Enc = Plain> {
    path: String,
    array_filters: Vec<(String, Document)>,
    deferred_error: Option<Error>,
    _marker: PhantomData<(E, T, Cap, Enc)>,
}

pub type MatchField<E, T> = Field<E, T, MatchOnly>;

pub type UpdateField<E, T> = Field<E, T, Positional>;

impl<E, T, Cap, Enc> Field<E, T, Cap, Enc> {
    pub closed spec fn spec_path(&self) -> Seq<char> {
        self.path@
    }

    pub closed spec fn spec_array_filters(&self) -> Seq<(Seq<char>, DocV)> {
        self.array_filters@.map_values(|e: (String, Document)| (e.0@, e.1@))
    }

    pub closed spec fn spec_error(&self) -> Option<Error> {
        self.deferred_error
    }

    /// The field stored under `path`.
    pub fn new(path: &str) -> (f: Self)
        ensures
            f.spec_path() == path@,
            f.spec_array_filters().len() == 0,
            f.spec_error() is None,
    {
        Field {
            path: owned(path),
            array_filters: Vec::new(),
            deferred_error: None,
            _marker: PhantomData,
        }
    }

    /// The stored path, dot-separated.
    pub fn path(&self) -> (p: &str)
        ensures
            p@ == self.spec_path(),
    {
        self.path.as_str()
    }

    /// A copy of the field.
    pub fn duplicate(&self) -> (f: Self)
        ensures
            f.spec_path() == self.spec_path(),
            f.spec_array_filters() == self.spec_array_filters(),
            match (f.spec_error(), self.spec_error()) {
                (Some(a), Some(b)) => same_error(a, b),
                (None, None) => true,
                _ => false,
            },
    {
        let ghost all = self.spec_array_filters();
        let mut array_filters: Vec<(String, Document)> = Vec::new();
        let mut i: usize = 0;
        while i < self.array_filters.len()
            invariant
                i <= self.array_filters@.len(),
                all == self.array_filters@.map_values(|e: (String, Document)| (e.0@, e.1@)),
                array_filters@.map_values(|e: (String, Document)| (e.0@, e.1@)) == all.take(i as int),
            decreases self.array_filters.len() - i,
        {
            let ghost a0 = array_filters@.map_values(|e: (String, Document)| (e.0@, e.1@));
            let entry = (self.array_filters[i].0.clone(), self.array_filters[i].1.duplicate());
            array_filters.push(entry);
            assert(array_filters@.map_values(|e: (String, Document)| (e.0@, e.1@)) =~= a0.push((entry.0@, entry.1@)));
            assert(all.take(i + 1) =~= all.take(i as int).push(all[i as int]));
            i = i + 1;
        }
        assert(all.take(i as int) =~= all);
        Field {
            path: self.path.clone(),
            array_filters,
            deferred_error: match &self.deferred_error {
                Some(e) => Some(e.duplicate()),
                None => None,
            },
            _marker: PhantomData,
        }
    }

    /// The same path seen with another type, capability or encoding.
    pub fn retype<T2, Cap2, Enc2>(self) -> (f: Field<E, T2, Cap2, Enc2>)
        ensures
            f.spec_path() == self.spec_path(),
            f.spec_array_filters() == self.spec_array_filters(),
            f.spec_error() == self.spec_error(),
    {
        Field {
            path: self.path,
            array_filters: self.array_filters,
            deferred_error: self.deferred_error,
            _marker: PhantomData,
        }
    }

    /// Descends one level: `path.segment`.
    pub fn push_segment(&mut self, segment: &str)
        ensures
            final(self).spec_path() == old(self).spec_path().push('.') + segment@,
            final(self).spec_array_filters() == old(self).spec_array_filters(),
            final(self).spec_error() == old(self).spec_error(),
    {
        push_char(&mut self.path, '.');
        push_str(&mut self.path, segment);
    }

    /// The path, the element filters and the deferred failure.
    pub fn into_positional_parts(self) -> (r: (String, Vec<(String, Document)>, Option<Error>))
        ensures
            r.0@ == self.spec_path(),
            r.1@.map_values(|e: (String, Document)| (e.0@, e.1@)) == self.spec_array_filters(),
            r.2 == self.spec_error(),
    {
        (self.path, self.array_filters, self.deferred_error)
    }

    /// Adds an element filter; the first failure met is the one kept.
    pub fn add_element_filter(&mut self, name: String, doc: Document, error: Option<Error>)
        ensures
            final(self).spec_path() == old(self).spec_path(),
            final(self).spec_array_filters() == old(self).spec_array_filters().push((name@, doc@)),
            final(self).spec_error() == if old(self).spec_error() is Some {
                old(self).spec_error()
            } else {
                error
            },
    {
        let ghost before = self.array_filters@;
        self.array_filters.push((name, doc));
        proof {
            assert(self.array_filters@.map_values(|e: (String, Document)| (e.0@, e.1@))
                =~= before.map_values(|e: (String, Document)| (e.0@, e.1@)).push(
                (self.array_filters@.last().0@, self.array_filters@.last().1@),
            ));
        }
        if self.deferred_error.is_none() {
            self.deferred_error = error;
        }
    }
}

/// The path of an entity's version lock.
#[derive(Debug)]
pub struct VersionField<E> {
    path: &'static str,
    _marker: PhantomData<E>,
}

impl<E> VersionField<E> {
    pub closed spec fn spec_path(&self) -> Seq<char> {
        self.path@
    }

    pub fn new(path: &'static str) -> (f: Self)
        ensures
            f.spec_path() == path@,
    {
        VersionField { path, _marker: PhantomData }
    }

    pub fn path(&self) -> (p: &'static str)
        ensures
            p@ == self.spec_path(),
    {
        self.path
    }
}

/// The field stored under `path`, for generated field tables.
pub fn new_field<E, T, Cap, Enc>(path: &str) -> (f: Field<E, T, Cap, Enc>)
    ensures
        f.spec_path() == path@,
        f.spec_array_filters().len() == 0,
        f.spec_error() is None,
{
    Field::new(path)
}

/// The version lock stored under `path`, for generated field tables.
pub fn new_version_field<E>(path: &'static str) -> (f: VersionField<E>)
    ensures
        f.spec_path() == path@,
{
    VersionField::new(path)
}

} // verus!

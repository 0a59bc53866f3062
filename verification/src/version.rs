//! The optimistic-lock counter of versioned entities.
use vstd::prelude::*;

use crate::bson::{Bson, BsonV, Float};
use crate::text::{owned, push_str};

verus! {

/// A committed version of a versioned document.
#[derive(Clone, Copy, PartialEq, Eq, Debug, Structural)]
pub struct Version(i64);

/// Why a stored value could not be read back.
#[derive(Debug, PartialEq)]
pub enum DecodeError {
    /// The stored document has no `_id`.
    MissingId,
    /// A versioned document has no lock field (the field's name).
    MissingLock { field: String },
    /// A stored version is a double that is not a whole number in `i64` range.
    NotIntegral(Float),
    /// A stored version is not a number.
    InvalidType,
}

/// The version a stored value reads as: integers as they are, doubles when
/// they are whole numbers within `i64`, nothing else.
pub open spec fn version_of(b: BsonV) -> Option<i64> {
    match b {
        BsonV::Int32(i) => Some(i as i64),
        BsonV::Int64(i) => Some(i),
        BsonV::Double(f) => if f.integral && f.in_i64_range {
            Some(f.truncated)
        } else {
            None
        },
        _ => None,
    }
}

impl Version {
    pub closed spec fn spec_value(self) -> i64 {
        self.0
    }

    pub closed spec fn committed_spec(value: i64) -> Version {
        Version(value)
    }

    pub broadcast proof fn lemma_committed_value(value: i64)
        ensures
            #[trigger] Version::committed_spec(value).spec_value() == value,
    {
    }

    pub broadcast proof fn lemma_committed_of_value(v: Version)
        ensures
            #[trigger] Version::committed_spec(v.spec_value()) == v,
    {
    }

    /// Versions are equal exactly when their values are.
    pub broadcast proof fn lemma_value_determines(a: Version, b: Version)
        ensures
            #[trigger] a.spec_value() == #[trigger] b.spec_value() <==> a == b,
    {
    }

    pub fn value(self) -> (v: i64)
        ensures
            v == self.spec_value(),
    {
        self.0
    }

    /// The version that a committed write left.
    pub fn committed(value: i64) -> (v: Version)
        ensures
            v.spec_value() == value,
            v == Version::committed_spec(value),
    {
        Version(value)
    }

    /// Reads a stored version: integral numbers only.
    pub fn from_bson(b: &Bson) -> (r: Result<Version, DecodeError>)
        ensures
            match version_of(b@) {
                Some(v) => r matches Ok(x) && x.spec_value() == v && x == Version::committed_spec(v),
                None => r is Err && (b is Double ==> r->Err_0 == DecodeError::NotIntegral(
                    b->Double_0,
                )) && (!(b is Double) ==> r->Err_0 is InvalidType),
            },
    {
        match b {
            Bson::Int32(i) => Ok(Version(*i as i64)),
            Bson::Int64(i) => Ok(Version(*i)),
            Bson::Double(f) => {
                if f.integral && f.in_i64_range {
                    Ok(Version(f.truncated))
                } else {
                    Err(DecodeError::NotIntegral(*f))
                }
            },
            _ => Err(DecodeError::InvalidType),
        }
    }
}

impl DecodeError {
    /// The failure in words. `shown_double` is the stored double written as
    /// text, as Rust's `{}` writes it; only the message of a version that is
    /// not a whole number names it.
    pub fn message(&self, shown_double: &str) -> (s: String)
        ensures
            match self {
                DecodeError::MissingId => s@ == "stored document has no `_id`"@,
                DecodeError::MissingLock { field } => s@ == "stored document has no `"@ + field@
                    + "` lock, backfill the collection before deploying a versioned entity"@,
                DecodeError::NotIntegral(_) => s@ == "stored version "@ + shown_double@ + " is not an integer"@,
                DecodeError::InvalidType => s@ == "stored version is not an integral number"@,
            },
    {
        match self {
            DecodeError::MissingId => owned("stored document has no `_id`"),
            DecodeError::MissingLock { field } => {
                let mut s = owned("stored document has no `");
                push_str(&mut s, field.as_str());
                push_str(&mut s, "` lock, backfill the collection before deploying a versioned entity");
                s
            },
            DecodeError::NotIntegral(_) => {
                let mut s = owned("stored version ");
                push_str(&mut s, shown_double);
                push_str(&mut s, " is not an integer");
                s
            },
            DecodeError::InvalidType => owned("stored version is not an integral number"),
        }
    }
}

} // verus!

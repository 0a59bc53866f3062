//! Declared indexes against the indexes a collection has: the diff, and what
//! syncing and verifying make of it.
use vstd::prelude::*;

use crate::text::{chars_of, str_eq, str_lt, seq_lt, owned};
use crate::bson::{
    Bson, BsonV, DocV, Document, Float, array_view, bson_view, doc_get, entries_view, has_key,
    lemma_array_view, lemma_entries_view,
};
use crate::error::{DriverError, DriverErrorKind, Error};
use crate::index::IndexSpec;

verus! {

/// A declared index found on the server under another name.
#[derive(Debug, PartialEq)]
pub struct NameDrift {
    pub expected: String,
    pub actual: String,
}

/// How the indexes on the server differ from the declared ones.
#[derive(Debug, PartialEq)]
pub struct IndexDiff {
    /// Declared indexes with no counterpart on the server.
    pub to_create: Vec<String>,
    /// Server indexes that nothing declares.
    pub to_drop: Vec<String>,
    /// Declared names present on the server with another structure.
    pub mismatched: Vec<String>,
    /// Declared indexes present on the server under another name.
    pub name_drift: Vec<NameDrift>,
    /// Indexes managed elsewhere that the server does not have.
    pub missing_external: Vec<String>,
}

impl NameDrift {
    pub fn duplicate(&self) -> (r: NameDrift)
        ensures
            r.expected@ == self.expected@,
            r.actual@ == self.actual@,
    {
        NameDrift { expected: self.expected.clone(), actual: self.actual.clone() }
    }
}

impl IndexDiff {
    /// A copy of the diff.
    pub fn duplicate(&self) -> (r: IndexDiff)
        ensures
            r.view_diff() == self.view_diff(),
    {
        let ghost drifts = self.name_drift@.map_values(|d: NameDrift| (d.expected@, d.actual@));
        let mut name_drift: Vec<NameDrift> = Vec::new();
        let mut i: usize = 0;
        while i < self.name_drift.len()
            invariant
                i <= self.name_drift@.len(),
                drifts == self.name_drift@.map_values(|d: NameDrift| (d.expected@, d.actual@)),
                name_drift@.map_values(|d: NameDrift| (d.expected@, d.actual@)) == drifts.take(i as int),
            decreases self.name_drift.len() - i,
        {
            let ghost n0 = name_drift@.map_values(|d: NameDrift| (d.expected@, d.actual@));
            let d = self.name_drift[i].duplicate();
            name_drift.push(d);
            assert(name_drift@.map_values(|d: NameDrift| (d.expected@, d.actual@)) =~= n0.push((d.expected@, d.actual@)));
            assert(drifts.take(i + 1) =~= drifts.take(i as int).push(drifts[i as int]));
            i = i + 1;
        }
        assert(drifts.take(i as int) =~= drifts);
        let mut to_create: Vec<String> = Vec::new();
        append_strings(&mut to_create, &self.to_create);
        let mut to_drop: Vec<String> = Vec::new();
        append_strings(&mut to_drop, &self.to_drop);
        let mut mismatched: Vec<String> = Vec::new();
        append_strings(&mut mismatched, &self.mismatched);
        let mut missing_external: Vec<String> = Vec::new();
        append_strings(&mut missing_external, &self.missing_external);
        proof {
            assert(strings_view(Seq::<String>::empty()) =~= Seq::<Seq<char>>::empty());
            assert(Seq::<Seq<char>>::empty() + strings_view(self.to_create@) =~= strings_view(self.to_create@));
            assert(Seq::<Seq<char>>::empty() + strings_view(self.to_drop@) =~= strings_view(self.to_drop@));
            assert(Seq::<Seq<char>>::empty() + strings_view(self.mismatched@) =~= strings_view(self.mismatched@));
            assert(Seq::<Seq<char>>::empty() + strings_view(self.missing_external@) =~= strings_view(self.missing_external@));
        }
        IndexDiff { to_create, to_drop, mismatched, name_drift, missing_external }
    }

    pub open spec fn spec_is_empty(&self) -> bool {
        &&& self.to_create@.len() == 0
        &&& self.to_drop@.len() == 0
        &&& self.mismatched@.len() == 0
        &&& self.name_drift@.len() == 0
        &&& self.missing_external@.len() == 0
    }

    /// Nothing differs.
    pub fn is_empty(&self) -> (b: bool)
        ensures
            b == self.spec_is_empty(),
    {
        self.to_create.len() == 0 && self.to_drop.len() == 0 && self.mismatched.len() == 0
            && self.name_drift.len() == 0 && self.missing_external.len() == 0
    }

    /// Verification fails on anything but indexes that are only extra on the
    /// server.
    pub open spec fn spec_fails_verify(&self) -> bool {
        ||| self.to_create@.len() != 0
        ||| self.mismatched@.len() != 0
        ||| self.name_drift@.len() != 0
        ||| self.missing_external@.len() != 0
    }

    pub fn fails_verify(&self) -> (b: bool)
        ensures
            b == self.spec_fails_verify(),
    {
        self.to_create.len() != 0 || self.mismatched.len() != 0 || self.name_drift.len() != 0
            || self.missing_external.len() != 0
    }
}


/// IEEE-754 equality of two doubles given by their bits: NaN equals nothing,
/// and the two zeros are equal.
pub open spec fn float_eq(a: Float, b: Float) -> bool {
    &&& !is_nan(a.bits)
    &&& !is_nan(b.bits)
    &&& (a.bits == b.bits || (is_zero(a.bits) && is_zero(b.bits)))
}

pub open spec fn is_nan(bits: u64) -> bool {
    (bits >> 52u64) & 0x7ffu64 == 0x7ffu64 && bits & 0xf_ffff_ffff_ffffu64 != 0
}

pub open spec fn is_zero(bits: u64) -> bool {
    bits & 0x7fff_ffff_ffff_ffffu64 == 0
}

pub fn floats_equal(a: Float, b: Float) -> (r: bool)
    ensures
        r == float_eq(a, b),
{
    let a_nan = (a.bits >> 52u64) & 0x7ffu64 == 0x7ffu64 && a.bits & 0xf_ffff_ffff_ffffu64 != 0;
    let b_nan = (b.bits >> 52u64) & 0x7ffu64 == 0x7ffu64 && b.bits & 0xf_ffff_ffff_ffffu64 != 0;
    let zeros = a.bits & 0x7fff_ffff_ffff_ffffu64 == 0 && b.bits & 0x7fff_ffff_ffff_ffffu64 == 0;
    !a_nan && !b_nan && (a.bits == b.bits || zeros)
}

/// Equality of BSON values: documents compare as maps (the same keys with
/// equal values, in any order), arrays element by element, doubles by IEEE
/// equality.
pub open spec fn value_eq(a: BsonV, b: BsonV) -> bool
    decreases a,
{
    match (a, b) {
        (BsonV::Null, BsonV::Null) => true,
        (BsonV::Boolean(x), BsonV::Boolean(y)) => x == y,
        (BsonV::Int32(x), BsonV::Int32(y)) => x == y,
        (BsonV::Int64(x), BsonV::Int64(y)) => x == y,
        (BsonV::Double(x), BsonV::Double(y)) => float_eq(x, y),
        (BsonV::Str(x), BsonV::Str(y)) => x == y,
        (BsonV::Other(x), BsonV::Other(y)) => x == y,
        (BsonV::Array(x), BsonV::Array(y)) => x.len() == y.len() && forall|i: int|
            0 <= i < x.len() ==> value_eq(x[i], #[trigger] y[i]),
        (BsonV::Doc(x), BsonV::Doc(y)) => x.len() == y.len() && forall|i: int|
            0 <= i < x.len() ==> (#[trigger] doc_get(y, x[i].0) matches Some(w) && value_eq(
                x[i].1,
                w,
            )),
        _ => false,
    }
}

/// Documents compare as maps.
pub open spec fn doc_eq(x: DocV, y: DocV) -> bool {
    value_eq(BsonV::Doc(x), BsonV::Doc(y))
}

/// Equality of BSON values as written out: entries and elements in order,
/// doubles by their bits.
pub open spec fn text_eq(a: BsonV, b: BsonV) -> bool
    decreases a,
{
    match (a, b) {
        (BsonV::Null, BsonV::Null) => true,
        (BsonV::Boolean(x), BsonV::Boolean(y)) => x == y,
        (BsonV::Int32(x), BsonV::Int32(y)) => x == y,
        (BsonV::Int64(x), BsonV::Int64(y)) => x == y,
        (BsonV::Double(x), BsonV::Double(y)) => x.bits == y.bits,
        (BsonV::Str(x), BsonV::Str(y)) => x == y,
        (BsonV::Other(x), BsonV::Other(y)) => x == y,
        (BsonV::Array(x), BsonV::Array(y)) => x.len() == y.len() && forall|i: int|
            0 <= i < x.len() ==> text_eq(x[i], #[trigger] y[i]),
        (BsonV::Doc(x), BsonV::Doc(y)) => x.len() == y.len() && forall|i: int|
            0 <= i < x.len() ==> x[i].0 == (#[trigger] y[i]).0 && text_eq(x[i].1, y[i].1),
        _ => false,
    }
}


/// `value_eq` on values.
#[verifier::spinoff_prover]
pub fn values_equal(a: &Bson, b: &Bson) -> (r: bool)
    ensures
        r == value_eq(a@, b@),
    decreases a,
{
    match (a, b) {
        (Bson::Null, Bson::Null) => true,
        (Bson::Boolean(x), Bson::Boolean(y)) => *x == *y,
        (Bson::Int32(x), Bson::Int32(y)) => *x == *y,
        (Bson::Int64(x), Bson::Int64(y)) => *x == *y,
        (Bson::Double(x), Bson::Double(y)) => floats_equal(*x, *y),
        (Bson::String(x), Bson::String(y)) => *x == *y,
        (Bson::Other(x), Bson::Other(y)) => *x == *y,
        (Bson::Array(x), Bson::Array(y)) => {
            proof {
                lemma_array_view(x@);
                lemma_array_view(y@);
            }
            if x.len() != y.len() {
                return false;
            }
            let mut i: usize = 0;
            while i < x.len()
                invariant
                    *a == Bson::Array(*x),
                    *b == Bson::Array(*y),
                    i <= x@.len(),
                    x@.len() == y@.len(),
                    array_view(x@).len() == x@.len(),
                    array_view(y@).len() == y@.len(),
                    forall|j: int| 0 <= j < x@.len() ==> #[trigger] array_view(x@)[j] == bson_view(x@[j]),
                    forall|j: int| 0 <= j < y@.len() ==> #[trigger] array_view(y@)[j] == bson_view(y@[j]),
                    forall|j: int| 0 <= j < i ==> value_eq(array_view(x@)[j], #[trigger] array_view(y@)[j]),
                decreases x.len() - i,
            {
                proof {
                    assert(decreases_to!(*a => (*a)->Array_0));
                    assert(decreases_to!((*a)->Array_0 => x@));
                    assert(decreases_to!(x@ => x@[i as int]));
                }
                if !values_equal(&x[i], &y[i]) {
                    assert(array_view(y@)[i as int] == bson_view(y@[i as int]));
                    return false;
                }
                i = i + 1;
            }
            true
        },
        (Bson::Document(x), Bson::Document(y)) => {
            proof {
                lemma_entries_view(x.entries@);
            }
            if x.len() != y.len() {
                return false;
            }
            let mut i: usize = 0;
            while i < x.entries.len()
                invariant
                    *a == Bson::Document(*x),
                    *b == Bson::Document(*y),
                    i <= x.entries@.len(),
                    x@.len() == y@.len(),
                    x@.len() == x.entries@.len(),
                    forall|j: int|
                        0 <= j < x.entries@.len() ==> #[trigger] x@[j] == (x.entries@[j].0@, bson_view(x.entries@[j].1)),
                    forall|j: int|
                        0 <= j < i ==> (#[trigger] doc_get(y@, x@[j].0) matches Some(w) && value_eq(x@[j].1, w)),
                decreases x.entries.len() - i,
            {
                let e = &x.entries[i];
                proof {
                    let ev = x.entries@[i as int];
                    assert(decreases_to!(*a => (*a)->Document_0));
                    assert(decreases_to!((*a)->Document_0 => x.entries));
                    assert(decreases_to!(x.entries => x.entries@));
                    assert(decreases_to!(x.entries@ => ev));
                    assert(decreases_to!(ev => ev.1));
                }
                match y.get(e.0.as_str()) {
                    Some(w) => {
                        if !values_equal(&e.1, w) {
                            assert(doc_get(y@, x@[i as int].0) == Some(w@));
                            return false;
                        }
                    },
                    None => {
                        assert(doc_get(y@, x@[i as int].0) is None);
                        return false;
                    },
                }
                i = i + 1;
            }
            true
        },
        _ => false,
    }
}

/// `text_eq` on values.
pub fn texts_equal(a: &Bson, b: &Bson) -> (r: bool)
    ensures
        r == text_eq(a@, b@),
    decreases a,
{
    match (a, b) {
        (Bson::Null, Bson::Null) => true,
        (Bson::Boolean(x), Bson::Boolean(y)) => *x == *y,
        (Bson::Int32(x), Bson::Int32(y)) => *x == *y,
        (Bson::Int64(x), Bson::Int64(y)) => *x == *y,
        (Bson::Double(x), Bson::Double(y)) => x.bits == y.bits,
        (Bson::String(x), Bson::String(y)) => *x == *y,
        (Bson::Other(x), Bson::Other(y)) => *x == *y,
        (Bson::Array(x), Bson::Array(y)) => {
            proof {
                lemma_array_view(x@);
                lemma_array_view(y@);
            }
            if x.len() != y.len() {
                return false;
            }
            let mut i: usize = 0;
            while i < x.len()
                invariant
                    *a == Bson::Array(*x),
                    *b == Bson::Array(*y),
                    i <= x@.len(),
                    x@.len() == y@.len(),
                    array_view(x@).len() == x@.len(),
                    array_view(y@).len() == y@.len(),
                    forall|j: int| 0 <= j < x@.len() ==> #[trigger] array_view(x@)[j] == bson_view(x@[j]),
                    forall|j: int| 0 <= j < y@.len() ==> #[trigger] array_view(y@)[j] == bson_view(y@[j]),
                    forall|j: int| 0 <= j < i ==> text_eq(array_view(x@)[j], #[trigger] array_view(y@)[j]),
                decreases x.len() - i,
            {
                proof {
                    assert(decreases_to!(*a => (*a)->Array_0));
                    assert(decreases_to!((*a)->Array_0 => x@));
                    assert(decreases_to!(x@ => x@[i as int]));
                }
                if !texts_equal(&x[i], &y[i]) {
                    assert(array_view(y@)[i as int] == bson_view(y@[i as int]));
                    return false;
                }
                i = i + 1;
            }
            true
        },
        (Bson::Document(x), Bson::Document(y)) => {
            proof {
                lemma_entries_view(x.entries@);
                lemma_entries_view(y.entries@);
            }
            if x.entries.len() != y.entries.len() {
                return false;
            }
            let mut i: usize = 0;
            while i < x.entries.len()
                invariant
                    *a == Bson::Document(*x),
                    *b == Bson::Document(*y),
                    i <= x.entries@.len(),
                    x.entries@.len() == y.entries@.len(),
                    x@.len() == x.entries@.len(),
                    y@.len() == y.entries@.len(),
                    forall|j: int|
                        0 <= j < x.entries@.len() ==> #[trigger] x@[j] == (x.entries@[j].0@, bson_view(x.entries@[j].1)),
                    forall|j: int|
                        0 <= j < y.entries@.len() ==> #[trigger] y@[j] == (y.entries@[j].0@, bson_view(y.entries@[j].1)),
                    forall|j: int| 0 <= j < i ==> x@[j].0 == (#[trigger] y@[j]).0 && text_eq(x@[j].1, y@[j].1),
                decreases x.entries.len() - i,
            {
                let e = &x.entries[i];
                let f = &y.entries[i];
                proof {
                    let ev = x.entries@[i as int];
                    assert(decreases_to!(*a => (*a)->Document_0));
                    assert(decreases_to!((*a)->Document_0 => x.entries));
                    assert(decreases_to!(x.entries => x.entries@));
                    assert(decreases_to!(x.entries@ => ev));
                    assert(decreases_to!(ev => ev.1));
                }
                if e.0 != f.0 || !texts_equal(&e.1, &f.1) {
                    assert(y@[i as int] == (f.0@, bson_view(f.1)));
                    return false;
                }
                i = i + 1;
            }
            true
        },
        _ => false,
    }
}


/// A stored number read as an integer: integers as they are, doubles
/// truncated toward zero.
pub open spec fn int_of(b: BsonV) -> Option<i64> {
    match b {
        BsonV::Int32(i) => Some(i as i64),
        BsonV::Int64(i) => Some(i),
        BsonV::Double(f) => Some(f.truncated),
        _ => None,
    }
}

pub fn bson_to_i64(b: &Bson) -> (r: Option<i64>)
    ensures
        r == int_of(b@),
{
    match b {
        Bson::Int32(i) => Some(*i as i64),
        Bson::Int64(i) => Some(*i),
        Bson::Double(f) => Some(f.truncated),
        _ => None,
    }
}

/// A stored number read as a double: a double as it is, an integer by its value.
pub enum Number {
    Float(Float),
    Int(i64),
}

pub open spec fn number_of(b: BsonV) -> Option<Number> {
    match b {
        BsonV::Double(f) => Some(Number::Float(f)),
        BsonV::Int32(i) => Some(Number::Int(i as i64)),
        BsonV::Int64(i) => Some(Number::Int(i)),
        _ => None,
    }
}

pub fn bson_to_number(b: &Bson) -> (r: Option<Number>)
    ensures
        r == number_of(b@),
{
    match b {
        Bson::Double(f) => Some(Number::Float(*f)),
        Bson::Int32(i) => Some(Number::Int(*i as i64)),
        Bson::Int64(i) => Some(Number::Int(*i)),
        _ => None,
    }
}

/// Numbers compared as doubles: two doubles by IEEE equality, a double and an
/// integer when the double is the integer's value, two integers when equal.
pub open spec fn number_eq(a: Number, b: Number) -> bool {
    match (a, b) {
        (Number::Float(x), Number::Float(y)) => float_eq(x, y),
        (Number::Int(i), Number::Int(j)) => i == j,
        (Number::Float(x), Number::Int(i)) => x.integral && x.in_i64_range && x.truncated == i,
        (Number::Int(i), Number::Float(x)) => x.integral && x.in_i64_range && x.truncated == i,
    }
}

pub fn numbers_equal(a: &Number, b: &Number) -> (r: bool)
    ensures
        r == number_eq(*a, *b),
{
    match (a, b) {
        (Number::Float(x), Number::Float(y)) => floats_equal(*x, *y),
        (Number::Int(i), Number::Int(j)) => *i == *j,
        (Number::Float(x), Number::Int(i)) => x.integral && x.in_i64_range && x.truncated == *i,
        (Number::Int(i), Number::Float(x)) => x.integral && x.in_i64_range && x.truncated == *i,
    }
}

pub open spec fn opt_number_eq(a: Option<Number>, b: Option<Number>) -> bool {
    match (a, b) {
        (Some(x), Some(y)) => number_eq(x, y),
        (None, None) => true,
        _ => false,
    }
}

/// The canonical form of a value: 32-bit integers and whole doubles become
/// 64-bit integers, all the way down.
pub open spec fn normal_value(b: BsonV) -> BsonV
    decreases b,
{
    match b {
        BsonV::Int32(i) => BsonV::Int64(i as i64),
        BsonV::Double(f) => if f.integral {
            BsonV::Int64(f.truncated)
        } else {
            BsonV::Double(f)
        },
        BsonV::Doc(d) => BsonV::Doc(normal_entries(d)),
        BsonV::Array(items) => BsonV::Array(normal_items(items)),
        other => other,
    }
}

pub open spec fn normal_items(s: Seq<BsonV>) -> Seq<BsonV>
    decreases s,
{
    if s.len() == 0 {
        Seq::empty()
    } else {
        normal_items(s.drop_last()).push(normal_value(s.last()))
    }
}

pub open spec fn normal_entries(d: DocV) -> DocV
    decreases d,
{
    if d.len() == 0 {
        Seq::empty()
    } else {
        normal_entries(d.drop_last()).push((d.last().0, normal_value(d.last().1)))
    }
}

pub proof fn lemma_normal_items(s: Seq<BsonV>)
    ensures
        normal_items(s).len() == s.len(),
        forall|i: int| 0 <= i < s.len() ==> #[trigger] normal_items(s)[i] == normal_value(s[i]),
    decreases s.len(),
{
    if s.len() > 0 {
        lemma_normal_items(s.drop_last());
    }
}

pub proof fn lemma_normal_entries(d: DocV)
    ensures
        normal_entries(d).len() == d.len(),
        forall|i: int|
            0 <= i < d.len() ==> #[trigger] normal_entries(d)[i] == (d[i].0, normal_value(d[i].1)),
    decreases d.len(),
{
    if d.len() > 0 {
        lemma_normal_entries(d.drop_last());
    }
}

/// The canonical form of a value.
#[verifier::spinoff_prover]
pub fn normalize_bson(b: &Bson) -> (r: Bson)
    ensures
        r@ == normal_value(b@),
    decreases b,
{
    match b {
        Bson::Int32(i) => Bson::Int64(*i as i64),
        Bson::Double(f) => {
            if f.integral {
                Bson::Int64(f.truncated)
            } else {
                Bson::Double(*f)
            }
        },
        Bson::Array(items) => {
            proof {
                lemma_array_view(items@);
                lemma_normal_items(array_view(items@));
            }
            let mut out: Vec<Bson> = Vec::new();
            let mut i: usize = 0;
            while i < items.len()
                invariant
                    *b == Bson::Array(*items),
                    i <= items@.len(),
                    array_view(items@).len() == items@.len(),
                    forall|j: int| 0 <= j < items@.len() ==> #[trigger] array_view(items@)[j] == bson_view(items@[j]),
                    out@.len() == i,
                    forall|j: int| 0 <= j < i ==> #[trigger] bson_view(out@[j]) == normal_value(bson_view(items@[j])),
                decreases items.len() - i,
            {
                proof {
                    assert(decreases_to!(*b => (*b)->Array_0));
                    assert(decreases_to!((*b)->Array_0 => items@));
                    assert(decreases_to!(items@ => items@[i as int]));
                }
                out.push(normalize_bson(&items[i]));
                i = i + 1;
            }
            proof {
                lemma_array_view(out@);
                assert(array_view(out@) =~= normal_items(array_view(items@)));
            }
            Bson::Array(out)
        },
        Bson::Document(d) => {
            proof {
                lemma_entries_view(d.entries@);
                lemma_normal_entries(d@);
            }
            let mut out: Vec<(String, Bson)> = Vec::new();
            let mut i: usize = 0;
            while i < d.entries.len()
                invariant
                    *b == Bson::Document(*d),
                    i <= d.entries@.len(),
                    d@.len() == d.entries@.len(),
                    forall|j: int| 0 <= j < d.entries@.len() ==> #[trigger] d@[j] == (d.entries@[j].0@, bson_view(d.entries@[j].1)),
                    out@.len() == i,
                    forall|j: int| 0 <= j < i ==> #[trigger] out@[j].0@ == d.entries@[j].0@ && bson_view(out@[j].1) == normal_value(bson_view(d.entries@[j].1)),
                decreases d.entries.len() - i,
            {
                proof {
                    let ev = d.entries@[i as int];
                    assert(decreases_to!(*b => (*b)->Document_0));
                    assert(decreases_to!((*b)->Document_0 => d.entries));
                    assert(decreases_to!(d.entries => d.entries@));
                    assert(decreases_to!(d.entries@ => ev));
                    assert(decreases_to!(ev => ev.1));
                }
                let v = normalize_bson(&d.entries[i].1);
                let k = d.entries[i].0.clone();
                let ghost o0 = out@;
                out.push((k, v));
                assert(out@[i as int].0@ == d.entries@[i as int].0@);
                assert(forall|j: int| 0 <= j < i ==> out@[j] == o0[j]);
                i = i + 1;
            }
            proof {
                lemma_entries_view(out@);
                assert(entries_view(out@) =~= normal_entries(d@));
            }
            Bson::Document(Document { entries: out })
        },
        Bson::Null => Bson::Null,
        Bson::Boolean(x) => Bson::Boolean(*x),
        Bson::Int64(x) => Bson::Int64(*x),
        Bson::String(x) => Bson::String(x.clone()),
        Bson::Other(x) => Bson::Other(x.clone()),
    }
}

/// The canonical form of a document: each value in canonical form, in order.
pub fn normalize_document(d: &Document) -> (r: Document)
    ensures
        r@ == normal_entries(d@),
{
    let b = Bson::Document(d.duplicate());
    match normalize_bson(&b) {
        Bson::Document(r) => r,
        _ => {
            assert(false);
            Document::new()
        },
    }
}


/// `e` placed into the sorted `sorted`: after every element it does not sort
/// before, so that equal elements keep their order.
pub open spec fn insert_sorted<T>(sorted: Seq<T>, e: T, lt: spec_fn(T, T) -> bool) -> Seq<T>
    decreases sorted.len(),
{
    if sorted.len() == 0 {
        seq![e]
    } else if lt(e, sorted.last()) {
        insert_sorted(sorted.drop_last(), e, lt).push(sorted.last())
    } else {
        sorted.push(e)
    }
}

/// Stable insertion sort under `lt`.
pub open spec fn sort_by<T>(s: Seq<T>, lt: spec_fn(T, T) -> bool) -> Seq<T>
    decreases s.len(),
{
    if s.len() == 0 {
        Seq::empty()
    } else {
        insert_sorted(sort_by(s.drop_last(), lt), s.last(), lt)
    }
}

pub open spec fn key_lt() -> spec_fn((Seq<char>, BsonV), (Seq<char>, BsonV)) -> bool {
    |a: (Seq<char>, BsonV), b: (Seq<char>, BsonV)| seq_lt(a.0, b.0)
}

pub open spec fn text_lt() -> spec_fn(Seq<char>, Seq<char>) -> bool {
    |a: Seq<char>, b: Seq<char>| seq_lt(a, b)
}

/// The order of `(String, i64)` pairs: by the string, then by the number.
pub open spec fn weight_lt() -> spec_fn((Seq<char>, i64), (Seq<char>, i64)) -> bool {
    |a: (Seq<char>, i64), b: (Seq<char>, i64)| seq_lt(a.0, b.0) || (a.0 == b.0 && a.1 < b.1)
}

pub open spec fn strings_view(v: Seq<String>) -> Seq<Seq<char>> {
    v.map_values(|s: String| s@)
}

pub open spec fn weights_view(v: Seq<(String, i64)>) -> Seq<(Seq<char>, i64)> {
    v.map_values(|w: (String, i64)| (w.0@, w.1))
}

fn insert_entry(v: &mut Vec<(String, Bson)>, e: (String, Bson))
    ensures
        entries_view(final(v)@) == insert_sorted(entries_view(old(v)@), (e.0@, bson_view(e.1)), key_lt()),
    decreases old(v)@.len(),
{
    let ghost old_v = v@;
    if v.len() == 0 {
        v.push(e);
        proof {
            crate::bson::lemma_entries_view_push(old_v, e);
            assert(entries_view(old_v) =~= Seq::<(Seq<char>, BsonV)>::empty());
        }
        assert(entries_view(v@) =~= seq![(e.0@, bson_view(e.1))]);
        return;
    }
    let n = v.len();
    let goes_before = str_lt(e.0.as_str(), v[n - 1].0.as_str());
    assert(old_v.drop_last().push(old_v.last()) == old_v);
    proof {
        crate::bson::lemma_entries_view_push(old_v.drop_last(), old_v.last());
        assert(entries_view(old_v).drop_last() == entries_view(old_v.drop_last()));
        assert(entries_view(old_v).last() == (old_v.last().0@, bson_view(old_v.last().1)));
        assert(goes_before == (key_lt())((e.0@, bson_view(e.1)), entries_view(old_v).last()));
    }
    if goes_before {
        let last = v.pop().unwrap();
        insert_entry(v, e);
        let ghost mid = v@;
        v.push(last);
        proof {
            crate::bson::lemma_entries_view_push(mid, last);
        }
    } else {
        v.push(e);
        proof {
            crate::bson::lemma_entries_view_push(old_v, e);
        }
    }
}

/// The entries sorted by key, equal keys in their order.
fn sort_entries(v: Vec<(String, Bson)>) -> (r: Vec<(String, Bson)>)
    ensures
        entries_view(r@) == sort_by(entries_view(v@), key_lt()),
    decreases v@.len(),
{
    let mut v = v;
    if v.len() == 0 {
        return v;
    }
    let ghost old_v = v@;
    let last = v.pop().unwrap();
    assert(old_v.drop_last() == v@);
    proof {
        crate::bson::lemma_entries_view_push(v@, last);
        assert(v@.push(last) == old_v);
        assert(entries_view(old_v).drop_last() == entries_view(v@));
        assert(entries_view(old_v).last() == (last.0@, bson_view(last.1)));
    }
    let mut sorted = sort_entries(v);
    insert_entry(&mut sorted, last);
    sorted
}

fn insert_string(v: &mut Vec<String>, e: String)
    ensures
        strings_view(final(v)@) == insert_sorted(strings_view(old(v)@), e@, text_lt()),
    decreases old(v)@.len(),
{
    let ghost old_v = v@;
    if v.len() == 0 {
        v.push(e);
        assert(strings_view(v@) =~= seq![e@]);
        return;
    }
    let n = v.len();
    let goes_before = str_lt(e.as_str(), v[n - 1].as_str());
    assert(strings_view(old_v).drop_last() =~= strings_view(old_v.drop_last()));
    if goes_before {
        let last = v.pop().unwrap();
        insert_string(v, e);
        let ghost mid = v@;
        v.push(last);
        assert(strings_view(v@) =~= strings_view(mid).push(last@));
    } else {
        v.push(e);
        assert(strings_view(v@) =~= strings_view(old_v).push(e@));
    }
}

/// The strings in sorted order.
pub fn sort_strings(v: Vec<String>) -> (r: Vec<String>)
    ensures
        strings_view(r@) == sort_by(strings_view(v@), text_lt()),
    decreases v@.len(),
{
    let mut v = v;
    if v.len() == 0 {
        assert(strings_view(v@) =~= Seq::<Seq<char>>::empty());
        return v;
    }
    let ghost old_v = v@;
    let last = v.pop().unwrap();
    assert(strings_view(old_v).drop_last() =~= strings_view(v@));
    let mut sorted = sort_strings(v);
    insert_string(&mut sorted, last);
    sorted
}

fn weight_before(a: &(String, i64), b: &(String, i64)) -> (r: bool)
    ensures
        r == (weight_lt())((a.0@, a.1), (b.0@, b.1)),
{
    str_lt(a.0.as_str(), b.0.as_str()) || (a.0 == b.0 && a.1 < b.1)
}

fn insert_weight(v: &mut Vec<(String, i64)>, e: (String, i64))
    ensures
        weights_view(final(v)@) == insert_sorted(weights_view(old(v)@), (e.0@, e.1), weight_lt()),
    decreases old(v)@.len(),
{
    let ghost old_v = v@;
    if v.len() == 0 {
        v.push(e);
        assert(weights_view(v@) =~= seq![(e.0@, e.1)]);
        return;
    }
    let n = v.len();
    let goes_before = weight_before(&e, &v[n - 1]);
    assert(weights_view(old_v).drop_last() =~= weights_view(old_v.drop_last()));
    if goes_before {
        let last = v.pop().unwrap();
        insert_weight(v, e);
        let ghost mid = v@;
        v.push(last);
        assert(weights_view(v@) =~= weights_view(mid).push((last.0@, last.1)));
    } else {
        v.push(e);
        assert(weights_view(v@) =~= weights_view(old_v).push((e.0@, e.1)));
    }
}

/// The weights sorted by field, then by weight.
pub fn sort_weights(v: Vec<(String, i64)>) -> (r: Vec<(String, i64)>)
    ensures
        weights_view(r@) == sort_by(weights_view(v@), weight_lt()),
    decreases v@.len(),
{
    let mut v = v;
    if v.len() == 0 {
        assert(weights_view(v@) =~= Seq::<(Seq<char>, i64)>::empty());
        return v;
    }
    let ghost old_v = v@;
    let last = v.pop().unwrap();
    assert(weights_view(old_v).drop_last() =~= weights_view(v@));
    let mut sorted = sort_weights(v);
    insert_weight(&mut sorted, last);
    sorted
}


pub open spec fn starts_dollar(k: Seq<char>) -> bool {
    k.len() > 0 && k[0] == '$'
}

pub open spec fn is_logical(k: Seq<char>) -> bool {
    k == "$and"@ || k == "$or"@ || k == "$nor"@
}

/// Some key of the document is an operator.
pub open spec fn has_operator_key(d: DocV) -> bool {
    exists|i: int| 0 <= i < d.len() && starts_dollar(d[i].0)
}

/// The canonical form of a partial-filter expression: a field compared to a
/// plain value becomes `{ field: { $eq: value } }`, the members of `$and`,
/// `$or` and `$nor` are put in canonical form, values are put in canonical
/// form, and the keys of each level are sorted.
pub open spec fn normal_partial(d: DocV) -> DocV
    decreases d, 2int,
{
    crate::bson::doc_from(sort_by(partial_entries(d), key_lt()))
}

pub open spec fn partial_entries(s: DocV) -> DocV
    decreases s, 1int,
{
    if s.len() == 0 {
        Seq::empty()
    } else {
        partial_entries(s.drop_last()).push((s.last().0, partial_value(s.last().0, s.last().1)))
    }
}

pub open spec fn partial_value(k: Seq<char>, v: BsonV) -> BsonV
    decreases v, 0int,
{
    if starts_dollar(k) {
        match v {
            BsonV::Array(items) => if is_logical(k) {
                BsonV::Array(partial_items(items))
            } else {
                normal_value(v)
            },
            _ => normal_value(v),
        }
    } else {
        match v {
            BsonV::Doc(d) => if has_operator_key(d) {
                BsonV::Doc(normal_partial(d))
            } else {
                BsonV::Doc(seq![("$eq"@, normal_value(v))])
            },
            _ => BsonV::Doc(seq![("$eq"@, normal_value(v))]),
        }
    }
}

pub open spec fn partial_items(s: Seq<BsonV>) -> Seq<BsonV>
    decreases s, 0int,
{
    if s.len() == 0 {
        Seq::empty()
    } else {
        partial_items(s.drop_last()).push(
            match s.last() {
                BsonV::Doc(d) => BsonV::Doc(normal_partial(d)),
                other => normal_value(other),
            },
        )
    }
}

fn starts_with_dollar(k: &str) -> (b: bool)
    ensures
        b == starts_dollar(k@),
{
    let cs = chars_of(k);
    cs.len() > 0 && cs[0] == '$'
}

fn any_operator_key(d: &Document) -> (b: bool)
    ensures
        b == has_operator_key(d@),
{
    proof {
        lemma_entries_view(d.entries@);
    }
    let mut i: usize = 0;
    while i < d.entries.len()
        invariant
            i <= d.entries@.len(),
            d@.len() == d.entries@.len(),
            forall|j: int| 0 <= j < d.entries@.len() ==> #[trigger] d@[j] == (d.entries@[j].0@, bson_view(d.entries@[j].1)),
            forall|j: int| 0 <= j < i ==> !starts_dollar(#[trigger] d@[j].0),
        decreases d.entries.len() - i,
    {
        if starts_with_dollar(d.entries[i].0.as_str()) {
            assert(starts_dollar(d@[i as int].0));
            return true;
        }
        i = i + 1;
    }
    false
}

fn eq_document(v: Bson) -> (d: Document)
    ensures
        d@ == seq![("$eq"@, v@)],
{
    let mut eq = Document::new();
    eq.insert(owned("$eq"), v);
    assert(eq@ =~= seq![("$eq"@, v@)]);
    eq
}

/// The canonical form of one value of a partial-filter expression.
fn normalize_partial_value(k: &str, v: &Bson) -> (r: Bson)
    ensures
        r@ == partial_value(k@, v@),
    decreases v, 0int,
{
    if starts_with_dollar(k) {
        let logical = str_eq(k, "$and") || str_eq(k, "$or") || str_eq(k, "$nor");
        match v {
            Bson::Array(items) => {
                if !logical {
                    return normalize_bson(v);
                }
                proof {
                    lemma_array_view(items@);
                }
                let ghost all = array_view(items@);
                let mut out: Vec<Bson> = Vec::new();
                let mut i: usize = 0;
                while i < items.len()
                    invariant
                        *v == Bson::Array(*items),
                        i <= items@.len(),
                        all == array_view(items@),
                        all.len() == items@.len(),
                        forall|j: int| 0 <= j < items@.len() ==> #[trigger] all[j] == bson_view(items@[j]),
                        array_view(out@) == partial_items(all.take(i as int)),
                    decreases items.len() - i,
                {
                    let item = &items[i];
                    proof {
                        assert(decreases_to!(*v => (*v)->Array_0));
                        assert(decreases_to!((*v)->Array_0 => items@));
                        assert(decreases_to!(items@ => items@[i as int]));
                    }
                    let n = match item {
                        Bson::Document(d) => {
                            proof {
                                assert(decreases_to!(items@[i as int] => (items@[i as int])->Document_0));
                            }
                            Bson::Document(normalize_partial(d))
                        },
                        _ => normalize_bson(item),
                    };
                    proof {
                        crate::bson::lemma_array_view_push(out@, n);
                        assert(all.take(i + 1).drop_last() == all.take(i as int));
                    }
                    out.push(n);
                    i = i + 1;
                }
                assert(all.take(i as int) == all);
                Bson::Array(out)
            },
            _ => normalize_bson(v),
        }
    } else {
        match v {
            Bson::Document(d) => {
                if any_operator_key(d) {
                    proof {
                        assert(decreases_to!(*v => (*v)->Document_0));
                    }
                    Bson::Document(normalize_partial(d))
                } else {
                    Bson::Document(eq_document(normalize_bson(v)))
                }
            },
            _ => Bson::Document(eq_document(normalize_bson(v))),
        }
    }
}

/// The canonical form of a partial-filter expression.
pub fn normalize_partial(d: &Document) -> (r: Document)
    ensures
        r@ == normal_partial(d@),
    decreases d, 2int,
{
    proof {
        lemma_entries_view(d.entries@);
    }
    let ghost all = d@;
    let mut out: Vec<(String, Bson)> = Vec::new();
    let mut i: usize = 0;
    while i < d.entries.len()
        invariant
            i <= d.entries@.len(),
            all == d@,
            all.len() == d.entries@.len(),
            forall|j: int| 0 <= j < d.entries@.len() ==> #[trigger] all[j] == (d.entries@[j].0@, bson_view(d.entries@[j].1)),
            entries_view(out@) == partial_entries(all.take(i as int)),
        decreases d.entries.len() - i,
    {
        let e = &d.entries[i];
        proof {
            let ev = d.entries@[i as int];
            assert(decreases_to!(*d => d.entries));
            assert(decreases_to!(d.entries => d.entries@));
            assert(decreases_to!(d.entries@ => ev));
            assert(decreases_to!(ev => ev.1));
        }
        let n = normalize_partial_value(e.0.as_str(), &e.1);
        let k = e.0.clone();
        proof {
            crate::bson::lemma_entries_view_push(out@, (k, n));
            assert(all.take(i + 1).drop_last() == all.take(i as int));
        }
        out.push((k, n));
        i = i + 1;
    }
    assert(all.take(i as int) == all);
    let sorted = sort_entries(out);
    Document::from_entries(sorted)
}


/// How one key of an index is keyed: a direction, or a kind such as
/// `"hashed"`.
pub enum NormalKey {
    Direction(i64),
    Kind(Bson),
}

pub enum NormalKeyV {
    Direction(i64),
    Kind(BsonV),
}

pub open spec fn normal_key_view(k: NormalKey) -> NormalKeyV {
    match k {
        NormalKey::Direction(d) => NormalKeyV::Direction(d),
        NormalKey::Kind(b) => NormalKeyV::Kind(bson_view(b)),
    }
}

pub enum NormalCollation {
    Unset,
    Simple,
    Locale { locale: String, strength: i64 },
}

pub enum NormalCollationV {
    Unset,
    Simple,
    Locale(Seq<char>, i64),
}

pub open spec fn normal_collation_view(c: NormalCollation) -> NormalCollationV {
    match c {
        NormalCollation::Unset => NormalCollationV::Unset,
        NormalCollation::Simple => NormalCollationV::Simple,
        NormalCollation::Locale { locale, strength } => NormalCollationV::Locale(locale@, strength),
    }
}

/// An index listing in canonical form, so that declared and existing indexes
/// can be compared.
pub struct NormalIndex {
    /// The keys before any text key, in order.
    pub prefix_keys: Vec<(String, NormalKey)>,
    /// The text-indexed fields, sorted.
    pub text_fields: Vec<String>,
    /// The keys after the text keys, in order.
    pub suffix_keys: Vec<(String, NormalKey)>,
    pub unique: bool,
    pub sparse: bool,
    pub hidden: bool,
    pub ttl_seconds: Option<i64>,
    pub partial: Option<Document>,
    /// The text weights, sorted; every text field has one.
    pub weights: Vec<(String, i64)>,
    pub collation: NormalCollation,
    pub wildcard_projection: Option<Document>,
    pub bits: Option<i64>,
    pub min: Option<Number>,
    pub max: Option<Number>,
}

pub struct NormalIndexV {
    pub prefix_keys: Seq<(Seq<char>, NormalKeyV)>,
    pub text_fields: Seq<Seq<char>>,
    pub suffix_keys: Seq<(Seq<char>, NormalKeyV)>,
    pub unique: bool,
    pub sparse: bool,
    pub hidden: bool,
    pub ttl_seconds: Option<i64>,
    pub partial: Option<DocV>,
    pub weights: Seq<(Seq<char>, i64)>,
    pub collation: NormalCollationV,
    pub wildcard_projection: Option<DocV>,
    pub bits: Option<i64>,
    pub min: Option<Number>,
    pub max: Option<Number>,
}

pub open spec fn keys_seq_view(s: Seq<(String, NormalKey)>) -> Seq<(Seq<char>, NormalKeyV)> {
    s.map_values(|e: (String, NormalKey)| (e.0@, normal_key_view(e.1)))
}

pub open spec fn opt_doc(d: Option<Document>) -> Option<DocV> {
    match d {
        Some(d) => Some(d@),
        None => None,
    }
}

impl View for NormalIndex {
    type V = NormalIndexV;

    open spec fn view(&self) -> NormalIndexV {
        NormalIndexV {
            prefix_keys: keys_seq_view(self.prefix_keys@),
            text_fields: strings_view(self.text_fields@),
            suffix_keys: keys_seq_view(self.suffix_keys@),
            unique: self.unique,
            sparse: self.sparse,
            hidden: self.hidden,
            ttl_seconds: self.ttl_seconds,
            partial: opt_doc(self.partial),
            weights: weights_view(self.weights@),
            collation: normal_collation_view(self.collation),
            wildcard_projection: opt_doc(self.wildcard_projection),
            bits: self.bits,
            min: self.min,
            max: self.max,
        }
    }
}

/// The key scan of an index's key document: keys before the first text key,
/// the text fields, and the keys after it.
pub struct KeyScan {
    pub prefix: Seq<(Seq<char>, NormalKeyV)>,
    pub suffix: Seq<(Seq<char>, NormalKeyV)>,
    pub text: Seq<Seq<char>>,
    pub seen_text: bool,
}

pub open spec fn key_scan(keys: DocV) -> KeyScan
    decreases keys.len(),
{
    if keys.len() == 0 {
        KeyScan { prefix: Seq::empty(), suffix: Seq::empty(), text: Seq::empty(), seen_text: false }
    } else {
        let st = key_scan(keys.drop_last());
        let (k, v) = keys.last();
        if k == "_fts"@ || k == "_ftsx"@ {
            KeyScan { seen_text: true, ..st }
        } else if v == BsonV::Str("text"@) {
            KeyScan { text: st.text.push(k), seen_text: true, ..st }
        } else {
            let nk = match int_of(v) {
                Some(d) => NormalKeyV::Direction(d),
                None => NormalKeyV::Kind(v),
            };
            if st.seen_text {
                KeyScan { suffix: st.suffix.push((k, nk)), ..st }
            } else {
                KeyScan { prefix: st.prefix.push((k, nk)), ..st }
            }
        }
    }
}

/// The document stored under `name`, or the empty document.
pub open spec fn sub_doc(d: DocV, name: Seq<char>) -> DocV {
    match doc_get(d, name) {
        Some(BsonV::Doc(x)) => x,
        _ => Seq::empty(),
    }
}

/// The numeric weights of a weights document, in order.
pub open spec fn raw_weights(w: DocV) -> Seq<(Seq<char>, i64)>
    decreases w.len(),
{
    if w.len() == 0 {
        Seq::empty()
    } else {
        let before = raw_weights(w.drop_last());
        match int_of(w.last().1) {
            Some(n) => before.push((w.last().0, n)),
            None => before,
        }
    }
}

pub open spec fn key_named(keys: Seq<(Seq<char>, NormalKeyV)>, f: Seq<char>) -> bool {
    exists|i: int| 0 <= i < keys.len() && keys[i].0 == f
}

/// The text fields extended by the weighted fields that are neither text
/// fields yet nor other keys.
pub open spec fn extend_text(
    text: Seq<Seq<char>>,
    weights: Seq<(Seq<char>, i64)>,
    prefix: Seq<(Seq<char>, NormalKeyV)>,
    suffix: Seq<(Seq<char>, NormalKeyV)>,
) -> Seq<Seq<char>>
    decreases weights.len(),
{
    if weights.len() == 0 {
        text
    } else {
        let t = extend_text(text, weights.drop_last(), prefix, suffix);
        let f = weights.last().0;
        if !t.contains(f) && !key_named(prefix, f) && !key_named(suffix, f) {
            t.push(f)
        } else {
            t
        }
    }
}

pub open spec fn weight_named(weights: Seq<(Seq<char>, i64)>, f: Seq<char>) -> bool {
    exists|i: int| 0 <= i < weights.len() && weights[i].0 == f
}

/// The weights extended by weight one for every text field without one.
pub open spec fn default_weights(weights: Seq<(Seq<char>, i64)>, text: Seq<Seq<char>>) -> Seq<(Seq<char>, i64)>
    decreases text.len(),
{
    if text.len() == 0 {
        weights
    } else {
        let w = default_weights(weights, text.drop_last());
        let f = text.last();
        if !weight_named(w, f) {
            w.push((f, 1))
        } else {
            w
        }
    }
}

pub open spec fn flag(d: DocV, name: Seq<char>) -> bool {
    doc_get(d, name) == Some(BsonV::Boolean(true))
}

pub open spec fn int_field(d: DocV, name: Seq<char>) -> Option<i64> {
    match doc_get(d, name) {
        Some(v) => int_of(v),
        None => None,
    }
}

pub open spec fn number_field(d: DocV, name: Seq<char>) -> Option<Number> {
    match doc_get(d, name) {
        Some(v) => number_of(v),
        None => None,
    }
}

pub open spec fn collation_of(listing: DocV) -> NormalCollationV {
    match doc_get(listing, "collation"@) {
        Some(BsonV::Doc(c)) => match doc_get(c, "locale"@) {
            Some(BsonV::Str(l)) => if l == "simple"@ {
                NormalCollationV::Simple
            } else {
                NormalCollationV::Locale(
                    l,
                    match int_field(c, "strength"@) {
                        Some(n) => n,
                        None => 3,
                    },
                )
            },
            _ => NormalCollationV::Unset,
        },
        _ => NormalCollationV::Unset,
    }
}

/// The canonical form of an index listing.
pub open spec fn normal_index(listing: DocV) -> NormalIndexV {
    let scan = key_scan(sub_doc(listing, "key"@));
    let raw = match doc_get(listing, "weights"@) {
        Some(BsonV::Doc(w)) => raw_weights(w),
        _ => Seq::empty(),
    };
    let text = extend_text(scan.text, raw, scan.prefix, scan.suffix);
    let weights = if text.len() > 0 {
        default_weights(raw, text)
    } else {
        raw
    };
    NormalIndexV {
        prefix_keys: scan.prefix,
        text_fields: sort_by(text, text_lt()),
        suffix_keys: scan.suffix,
        unique: flag(listing, "unique"@),
        sparse: flag(listing, "sparse"@),
        hidden: flag(listing, "hidden"@),
        ttl_seconds: int_field(listing, "expireAfterSeconds"@),
        partial: match doc_get(listing, "partialFilterExpression"@) {
            Some(BsonV::Doc(p)) => Some(normal_partial(p)),
            _ => None,
        },
        weights: sort_by(weights, weight_lt()),
        collation: collation_of(listing),
        wildcard_projection: match doc_get(listing, "wildcardProjection"@) {
            Some(BsonV::Doc(p)) => Some(normal_entries(p)),
            _ => None,
        },
        bits: int_field(listing, "bits"@),
        min: number_field(listing, "min"@),
        max: number_field(listing, "max"@),
    }
}


/// The document stored under `name`, if the value there is a document.
fn get_document<'a>(d: &'a Document, name: &str) -> (r: Option<&'a Document>)
    ensures
        match doc_get(d@, name@) {
            Some(BsonV::Doc(x)) => r matches Some(y) && y@ == x,
            _ => r is None,
        },
{
    match d.get(name) {
        Some(Bson::Document(x)) => Some(x),
        _ => None,
    }
}

fn is_text_kind(v: &Bson) -> (b: bool)
    ensures
        b == (v@ == BsonV::Str("text"@)),
{
    match v {
        Bson::String(s) => str_eq(s.as_str(), "text"),
        _ => false,
    }
}

fn scan_keys(keys: &Document) -> (r: (Vec<(String, NormalKey)>, Vec<(String, NormalKey)>, Vec<String>, bool))
    ensures
        keys_seq_view(r.0@) == key_scan(keys@).prefix,
        keys_seq_view(r.1@) == key_scan(keys@).suffix,
        strings_view(r.2@) == key_scan(keys@).text,
        r.3 == key_scan(keys@).seen_text,
{
    proof {
        lemma_entries_view(keys.entries@);
    }
    let ghost all = keys@;
    let mut prefix: Vec<(String, NormalKey)> = Vec::new();
    let mut suffix: Vec<(String, NormalKey)> = Vec::new();
    let mut text: Vec<String> = Vec::new();
    let mut seen_text = false;
    let mut i: usize = 0;
    while i < keys.entries.len()
        invariant
            i <= keys.entries@.len(),
            all == keys@,
            all.len() == keys.entries@.len(),
            forall|j: int| 0 <= j < keys.entries@.len() ==> #[trigger] all[j] == (keys.entries@[j].0@, bson_view(keys.entries@[j].1)),
            keys_seq_view(prefix@) == key_scan(all.take(i as int)).prefix,
            keys_seq_view(suffix@) == key_scan(all.take(i as int)).suffix,
            strings_view(text@) == key_scan(all.take(i as int)).text,
            seen_text == key_scan(all.take(i as int)).seen_text,
        decreases keys.entries.len() - i,
    {
        let (k, v) = &keys.entries[i];
        assert(all.take(i + 1).drop_last() == all.take(i as int));
        assert(all.take(i + 1).last() == (k@, bson_view(*v)));
        let ghost p0 = prefix@;
        let ghost s0 = suffix@;
        let ghost t0 = text@;
        if str_eq(k.as_str(), "_fts") || str_eq(k.as_str(), "_ftsx") {
            seen_text = true;
        } else if is_text_kind(v) {
            seen_text = true;
            text.push(k.clone());
            assert(strings_view(text@) =~= strings_view(t0).push(k@));
        } else {
            let nk = match bson_to_i64(v) {
                Some(d) => NormalKey::Direction(d),
                None => NormalKey::Kind(v.duplicate()),
            };
            if seen_text {
                suffix.push((k.clone(), nk));
                assert(keys_seq_view(suffix@) =~= keys_seq_view(s0).push((k@, normal_key_view(nk))));
            } else {
                prefix.push((k.clone(), nk));
                assert(keys_seq_view(prefix@) =~= keys_seq_view(p0).push((k@, normal_key_view(nk))));
            }
        }
        i = i + 1;
    }
    assert(all.take(i as int) == all);
    (prefix, suffix, text, seen_text)
}

fn collect_weights(w: &Document) -> (r: Vec<(String, i64)>)
    ensures
        weights_view(r@) == raw_weights(w@),
{
    proof {
        lemma_entries_view(w.entries@);
    }
    let ghost all = w@;
    let mut out: Vec<(String, i64)> = Vec::new();
    let mut i: usize = 0;
    while i < w.entries.len()
        invariant
            i <= w.entries@.len(),
            all == w@,
            all.len() == w.entries@.len(),
            forall|j: int| 0 <= j < w.entries@.len() ==> #[trigger] all[j] == (w.entries@[j].0@, bson_view(w.entries@[j].1)),
            weights_view(out@) == raw_weights(all.take(i as int)),
        decreases w.entries.len() - i,
    {
        let (k, v) = &w.entries[i];
        assert(all.take(i + 1).drop_last() == all.take(i as int));
        let ghost o0 = out@;
        match bson_to_i64(v) {
            Some(n) => {
                out.push((k.clone(), n));
                assert(weights_view(out@) =~= weights_view(o0).push((k@, n)));
            },
            None => {},
        }
        i = i + 1;
    }
    assert(all.take(i as int) == all);
    out
}

fn strings_contain(v: &Vec<String>, f: &str) -> (b: bool)
    ensures
        b == strings_view(v@).contains(f@),
{
    let mut i: usize = 0;
    while i < v.len()
        invariant
            i <= v@.len(),
            forall|j: int| 0 <= j < i ==> v@[j]@ != f@,
        decreases v.len() - i,
    {
        if str_eq(v[i].as_str(), f) {
            assert(strings_view(v@)[i as int] == f@);
            return true;
        }
        i = i + 1;
    }
    assert(!strings_view(v@).contains(f@)) by {
        if strings_view(v@).contains(f@) {
            let j = choose|j: int| 0 <= j < strings_view(v@).len() && strings_view(v@)[j] == f@;
            assert(v@[j]@ == f@);
        }
    }
    false
}

fn keys_contain(keys: &Vec<(String, NormalKey)>, f: &str) -> (b: bool)
    ensures
        b == key_named(keys_seq_view(keys@), f@),
{
    let mut i: usize = 0;
    while i < keys.len()
        invariant
            i <= keys@.len(),
            forall|j: int| 0 <= j < i ==> keys@[j].0@ != f@,
        decreases keys.len() - i,
    {
        if str_eq(keys[i].0.as_str(), f) {
            assert(keys_seq_view(keys@)[i as int].0 == f@);
            return true;
        }
        i = i + 1;
    }
    assert(!key_named(keys_seq_view(keys@), f@)) by {
        if key_named(keys_seq_view(keys@), f@) {
            let j = choose|j: int| 0 <= j < keys_seq_view(keys@).len() && keys_seq_view(keys@)[j].0 == f@;
            assert(keys@[j].0@ == f@);
        }
    }
    false
}

fn weights_contain(w: &Vec<(String, i64)>, f: &str) -> (b: bool)
    ensures
        b == weight_named(weights_view(w@), f@),
{
    let mut i: usize = 0;
    while i < w.len()
        invariant
            i <= w@.len(),
            forall|j: int| 0 <= j < i ==> w@[j].0@ != f@,
        decreases w.len() - i,
    {
        if str_eq(w[i].0.as_str(), f) {
            assert(weights_view(w@)[i as int].0 == f@);
            return true;
        }
        i = i + 1;
    }
    assert(!weight_named(weights_view(w@), f@)) by {
        if weight_named(weights_view(w@), f@) {
            let j = choose|j: int| 0 <= j < weights_view(w@).len() && weights_view(w@)[j].0 == f@;
            assert(w@[j].0@ == f@);
        }
    }
    false
}


fn flag_of(listing: &Document, name: &str) -> (b: bool)
    ensures
        b == flag(listing@, name@),
{
    match listing.get(name) {
        Some(Bson::Boolean(b)) => *b,
        _ => false,
    }
}

fn int_field_of(listing: &Document, name: &str) -> (r: Option<i64>)
    ensures
        r == int_field(listing@, name@),
{
    match listing.get(name) {
        Some(v) => bson_to_i64(v),
        None => None,
    }
}

fn number_field_of(listing: &Document, name: &str) -> (r: Option<Number>)
    ensures
        r == number_field(listing@, name@),
{
    match listing.get(name) {
        Some(v) => bson_to_number(v),
        None => None,
    }
}

fn collation_from(listing: &Document) -> (r: NormalCollation)
    ensures
        normal_collation_view(r) == collation_of(listing@),
{
    match get_document(listing, "collation") {
        None => NormalCollation::Unset,
        Some(c) => match c.get("locale") {
            Some(Bson::String(l)) => {
                if str_eq(l.as_str(), "simple") {
                    NormalCollation::Simple
                } else {
                    let strength = match int_field_of(c, "strength") {
                        Some(n) => n,
                        None => 3,
                    };
                    NormalCollation::Locale { locale: l.clone(), strength }
                }
            },
            _ => NormalCollation::Unset,
        },
    }
}

/// The canonical form of an index listing.
pub fn normalize(listing: &Document) -> (r: NormalIndex)
    ensures
        r@ == normal_index(listing@),
{
    let (prefix_keys, suffix_keys, mut text_fields, _) = match get_document(listing, "key") {
        Some(keys) => scan_keys(keys),
        None => {
            let empty = Document::new();
            scan_keys(&empty)
        },
    };
    let ghost scan = key_scan(sub_doc(listing@, "key"@));
    let mut weights = match get_document(listing, "weights") {
        Some(w) => collect_weights(w),
        None => Vec::new(),
    };
    let ghost raw = weights_view(weights@);
    assert(raw == match doc_get(listing@, "weights"@) {
        Some(BsonV::Doc(w)) => raw_weights(w),
        _ => Seq::<(Seq<char>, i64)>::empty(),
    });
    let ghost text0 = strings_view(text_fields@);
    let mut i: usize = 0;
    while i < weights.len()
        invariant
            i <= weights@.len(),
            raw == weights_view(weights@),
            strings_view(text_fields@) == extend_text(text0, raw.take(i as int), keys_seq_view(prefix_keys@), keys_seq_view(suffix_keys@)),
        decreases weights.len() - i,
    {
        let field = &weights[i].0;
        assert(raw.take(i + 1).drop_last() == raw.take(i as int));
        assert(raw.take(i + 1).last().0 == field@);
        if !strings_contain(&text_fields, field.as_str()) && !keys_contain(&prefix_keys, field.as_str())
            && !keys_contain(&suffix_keys, field.as_str()) {
            let ghost t0 = text_fields@;
            text_fields.push(field.clone());
            assert(strings_view(text_fields@) =~= strings_view(t0).push(field@));
        }
        i = i + 1;
    }
    assert(raw.take(i as int) == raw);
    let ghost text = strings_view(text_fields@);
    if text_fields.len() > 0 {
        let mut j: usize = 0;
        while j < text_fields.len()
            invariant
                j <= text_fields@.len(),
                text == strings_view(text_fields@),
                weights_view(weights@) == default_weights(raw, text.take(j as int)),
            decreases text_fields.len() - j,
        {
            let field = &text_fields[j];
            assert(text.take(j + 1).drop_last() == text.take(j as int));
            assert(text.take(j + 1).last() == field@);
            if !weights_contain(&weights, field.as_str()) {
                let ghost w0 = weights@;
                weights.push((field.clone(), 1));
                assert(weights_view(weights@) =~= weights_view(w0).push((field@, 1i64)));
            }
            j = j + 1;
        }
        assert(text.take(j as int) == text);
    }
    let text_fields = sort_strings(text_fields);
    let weights = sort_weights(weights);
    let partial = match get_document(listing, "partialFilterExpression") {
        Some(p) => Some(normalize_partial(p)),
        None => None,
    };
    let wildcard_projection = match get_document(listing, "wildcardProjection") {
        Some(p) => Some(normalize_document(p)),
        None => None,
    };
    let r = NormalIndex {
        prefix_keys,
        text_fields,
        suffix_keys,
        unique: flag_of(listing, "unique"),
        sparse: flag_of(listing, "sparse"),
        hidden: flag_of(listing, "hidden"),
        ttl_seconds: int_field_of(listing, "expireAfterSeconds"),
        partial,
        weights,
        collation: collation_from(listing),
        wildcard_projection,
        bits: int_field_of(listing, "bits"),
        min: number_field_of(listing, "min"),
        max: number_field_of(listing, "max"),
    };
    r
}


/// Whether a declared collation is met by an existing one: a declared locale
/// only by the same locale and strength; no declared collation by none or the
/// simple one, or by anything when not strict.
pub open spec fn collation_matches_spec(declared: NormalCollationV, existing: NormalCollationV, strict: bool) -> bool {
    match declared {
        NormalCollationV::Unset => if !strict {
            true
        } else {
            existing is Unset || existing is Simple
        },
        NormalCollationV::Locale(_, _) => declared == existing,
        NormalCollationV::Simple => existing is Unset || existing is Simple,
    }
}

pub fn collation_matches(declared: &NormalCollation, existing: &NormalCollation, strict: bool) -> (b: bool)
    ensures
        b == collation_matches_spec(normal_collation_view(*declared), normal_collation_view(*existing), strict),
{
    match declared {
        NormalCollation::Unset if !strict => true,
        NormalCollation::Locale { locale, strength } => match existing {
            NormalCollation::Locale { locale: l2, strength: s2 } => *locale == *l2 && *strength == *s2,
            _ => false,
        },
        _ => match existing {
            NormalCollation::Unset => true,
            NormalCollation::Simple => true,
            _ => false,
        },
    }
}

pub open spec fn key_eq(a: NormalKeyV, b: NormalKeyV) -> bool {
    match (a, b) {
        (NormalKeyV::Direction(x), NormalKeyV::Direction(y)) => x == y,
        (NormalKeyV::Kind(x), NormalKeyV::Kind(y)) => text_eq(x, y),
        _ => false,
    }
}

pub open spec fn keys_eq(a: Seq<(Seq<char>, NormalKeyV)>, b: Seq<(Seq<char>, NormalKeyV)>) -> bool {
    a.len() == b.len() && forall|i: int| 0 <= i < a.len() ==> a[i].0 == (#[trigger] b[i]).0 && key_eq(a[i].1, b[i].1)
}

pub open spec fn opt_text_eq(a: Option<DocV>, b: Option<DocV>) -> bool {
    match (a, b) {
        (Some(x), Some(y)) => text_eq(BsonV::Doc(x), BsonV::Doc(y)),
        (None, None) => true,
        _ => false,
    }
}

pub open spec fn opt_doc_eq(a: Option<DocV>, b: Option<DocV>) -> bool {
    match (a, b) {
        (Some(x), Some(y)) => doc_eq(x, y),
        (None, None) => true,
        _ => false,
    }
}

/// A declared index is met by an existing one: the same keys, text fields,
/// flags, expiry, partial filter, weights and projection; a matching
/// collation; and the same bits, min and max where the declaration sets them.
#[verifier::opaque]
pub open spec fn structures_match_spec(declared: NormalIndexV, existing: NormalIndexV, strict_collation: bool) -> bool {
    &&& collation_matches_spec(declared.collation, existing.collation, strict_collation)
    &&& keys_eq(declared.prefix_keys, existing.prefix_keys)
    &&& declared.text_fields == existing.text_fields
    &&& keys_eq(declared.suffix_keys, existing.suffix_keys)
    &&& declared.unique == existing.unique
    &&& declared.sparse == existing.sparse
    &&& declared.hidden == existing.hidden
    &&& declared.ttl_seconds == existing.ttl_seconds
    &&& opt_text_eq(declared.partial, existing.partial)
    &&& declared.weights == existing.weights
    &&& opt_doc_eq(declared.wildcard_projection, existing.wildcard_projection)
    &&& (declared.bits is None || declared.bits == existing.bits)
    &&& (declared.min is None || opt_number_eq(declared.min, existing.min))
    &&& (declared.max is None || opt_number_eq(declared.max, existing.max))
}

fn keys_equal(a: &Vec<(String, NormalKey)>, b: &Vec<(String, NormalKey)>) -> (r: bool)
    ensures
        r == keys_eq(keys_seq_view(a@), keys_seq_view(b@)),
{
    if a.len() != b.len() {
        return false;
    }
    let mut i: usize = 0;
    while i < a.len()
        invariant
            i <= a@.len(),
            a@.len() == b@.len(),
            forall|j: int| 0 <= j < i ==> a@[j].0@ == b@[j].0@ && key_eq(normal_key_view(a@[j].1), normal_key_view(b@[j].1)),
        decreases a.len() - i,
    {
        let same = a[i].0 == b[i].0 && match (&a[i].1, &b[i].1) {
            (NormalKey::Direction(x), NormalKey::Direction(y)) => *x == *y,
            (NormalKey::Kind(x), NormalKey::Kind(y)) => texts_equal(x, y),
            _ => false,
        };
        if !same {
            assert(keys_seq_view(b@)[i as int] == (b@[i as int].0@, normal_key_view(b@[i as int].1)));
            return false;
        }
        i = i + 1;
    }
    true
}

fn strings_equal(a: &Vec<String>, b: &Vec<String>) -> (r: bool)
    ensures
        r == (strings_view(a@) == strings_view(b@)),
{
    if a.len() != b.len() {
        assert(strings_view(a@).len() != strings_view(b@).len());
        return false;
    }
    let mut i: usize = 0;
    while i < a.len()
        invariant
            i <= a@.len(),
            a@.len() == b@.len(),
            forall|j: int| 0 <= j < i ==> a@[j]@ == b@[j]@,
        decreases a.len() - i,
    {
        if a[i] != b[i] {
            assert(strings_view(a@)[i as int] != strings_view(b@)[i as int]);
            return false;
        }
        i = i + 1;
    }
    assert(strings_view(a@) =~= strings_view(b@));
    true
}

fn weights_equal(a: &Vec<(String, i64)>, b: &Vec<(String, i64)>) -> (r: bool)
    ensures
        r == (weights_view(a@) == weights_view(b@)),
{
    if a.len() != b.len() {
        assert(weights_view(a@).len() != weights_view(b@).len());
        return false;
    }
    let mut i: usize = 0;
    while i < a.len()
        invariant
            i <= a@.len(),
            a@.len() == b@.len(),
            forall|j: int| 0 <= j < i ==> a@[j].0@ == b@[j].0@ && a@[j].1 == b@[j].1,
        decreases a.len() - i,
    {
        if a[i].0 != b[i].0 || a[i].1 != b[i].1 {
            assert(weights_view(a@)[i as int] != weights_view(b@)[i as int]);
            return false;
        }
        i = i + 1;
    }
    assert(weights_view(a@) =~= weights_view(b@));
    true
}

fn opt_numbers_equal(a: &Option<Number>, b: &Option<Number>) -> (r: bool)
    ensures
        r == opt_number_eq(*a, *b),
{
    match (a, b) {
        (Some(x), Some(y)) => numbers_equal(x, y),
        (None, None) => true,
        _ => false,
    }
}

/// Whether a declared index is met by an existing one.
pub fn structures_match(declared: &NormalIndex, existing: &NormalIndex, strict_collation: bool) -> (r: bool)
    ensures
        r == structures_match_spec(declared@, existing@, strict_collation),
{
    reveal(structures_match_spec);
    let partial_same = match (&declared.partial, &existing.partial) {
        (Some(x), Some(y)) => {
            let a = Bson::Document(x.duplicate());
            let b = Bson::Document(y.duplicate());
            texts_equal(&a, &b)
        },
        (None, None) => true,
        _ => false,
    };
    let projection_same = match (&declared.wildcard_projection, &existing.wildcard_projection) {
        (Some(x), Some(y)) => {
            let a = Bson::Document(x.duplicate());
            let b = Bson::Document(y.duplicate());
            values_equal(&a, &b)
        },
        (None, None) => true,
        _ => false,
    };
    let bits_same = match declared.bits {
        None => true,
        Some(b) => match existing.bits {
            Some(e) => b == e,
            None => false,
        },
    };
    collation_matches(&declared.collation, &existing.collation, strict_collation)
        && keys_equal(&declared.prefix_keys, &existing.prefix_keys)
        && strings_equal(&declared.text_fields, &existing.text_fields)
        && keys_equal(&declared.suffix_keys, &existing.suffix_keys)
        && declared.unique == existing.unique
        && declared.sparse == existing.sparse
        && declared.hidden == existing.hidden
        && declared.ttl_seconds == existing.ttl_seconds
        && partial_same
        && weights_equal(&declared.weights, &existing.weights)
        && projection_same
        && bits_same
        && (declared.min.is_none() || opt_numbers_equal(&declared.min, &existing.min))
        && (declared.max.is_none() || opt_numbers_equal(&declared.max, &existing.max))
}


/// The first `j < n` with `p(j)`, or `-1`.
pub open spec fn first_where(n: int, p: spec_fn(int) -> bool) -> int
    decreases n,
{
    if n <= 0 {
        -1
    } else {
        let r = first_where(n - 1, p);
        if r >= 0 {
            r
        } else if p(n - 1) {
            n - 1
        } else {
            -1
        }
    }
}

pub proof fn lemma_first_where_none(n: int, p: spec_fn(int) -> bool)
    requires
        forall|j: int| 0 <= j < n ==> !#[trigger] p(j),
    ensures
        first_where(n, p) == -1,
    decreases n,
{
    if n > 0 {
        lemma_first_where_none(n - 1, p);
    }
}

pub proof fn lemma_first_where_found(n: int, p: spec_fn(int) -> bool, k: int)
    requires
        0 <= k < n,
        p(k),
        forall|j: int| 0 <= j < k ==> !#[trigger] p(j),
    ensures
        first_where(n, p) == k,
    decreases n,
{
    if n - 1 > k {
        lemma_first_where_found(n - 1, p, k);
    } else {
        lemma_first_where_none(k, p);
    }
}

/// The named listings among the existing ones, with their canonical forms.
pub open spec fn existing_named(listings: Seq<DocV>) -> Seq<(Seq<char>, NormalIndexV)>
    decreases listings.len(),
{
    if listings.len() == 0 {
        Seq::empty()
    } else {
        let before = existing_named(listings.drop_last());
        match doc_get(listings.last(), "name"@) {
            Some(BsonV::Str(n)) => before.push((n, normal_index(listings.last()))),
            _ => before,
        }
    }
}

pub open spec fn declared_named(declared: Seq<(Seq<char>, DocV)>) -> Seq<(Seq<char>, NormalIndexV)> {
    declared.map_values(|d: (Seq<char>, DocV)| (d.0, normal_index(d.1)))
}

/// An existing index not yet bound, named `name`.
pub open spec fn name_pred(used: Seq<bool>, ex: Seq<(Seq<char>, NormalIndexV)>, name: Seq<char>) -> spec_fn(int) -> bool {
    |j: int| !used[j] && ex[j].0 == name
}

/// An existing index not yet bound, other than `_id_`, with the structure of
/// `normal` under strict collation rules.
pub open spec fn structure_pred(used: Seq<bool>, ex: Seq<(Seq<char>, NormalIndexV)>, normal: NormalIndexV) -> spec_fn(int) -> bool {
    |j: int| !used[j] && ex[j].0 != "_id_"@ && structures_match_spec(normal, ex[j].1, true)
}

/// Binding declared indexes to existing ones of the same name.
pub struct BindState {
    pub used: Seq<bool>,
    pub mismatched: Seq<Seq<char>>,
    pub unbound: Seq<(Seq<char>, NormalIndexV)>,
}

pub open spec fn bind_by_name(decl: Seq<(Seq<char>, NormalIndexV)>, ex: Seq<(Seq<char>, NormalIndexV)>) -> BindState
    decreases decl.len(),
{
    if decl.len() == 0 {
        BindState { used: Seq::new(ex.len(), |i: int| false), mismatched: Seq::empty(), unbound: Seq::empty() }
    } else {
        let st = bind_by_name(decl.drop_last(), ex);
        let (name, normal) = decl.last();
        let j = first_where(ex.len() as int, name_pred(st.used, ex, name));
        if j >= 0 {
            BindState {
                used: st.used.update(j, true),
                mismatched: if !structures_match_spec(normal, ex[j].1, false) {
                    st.mismatched.push(name)
                } else {
                    st.mismatched
                },
                unbound: st.unbound,
            }
        } else {
            BindState { unbound: st.unbound.push((name, normal)), ..st }
        }
    }
}

/// Binding the declared indexes left over to unnamed-alike existing ones of the
/// same structure.
pub struct DriftState {
    pub used: Seq<bool>,
    pub name_drift: Seq<(Seq<char>, Seq<char>)>,
    pub to_create: Seq<Seq<char>>,
}

pub open spec fn bind_by_structure(
    unbound: Seq<(Seq<char>, NormalIndexV)>,
    ex: Seq<(Seq<char>, NormalIndexV)>,
    used: Seq<bool>,
) -> DriftState
    decreases unbound.len(),
{
    if unbound.len() == 0 {
        DriftState { used, name_drift: Seq::empty(), to_create: Seq::empty() }
    } else {
        let st = bind_by_structure(unbound.drop_last(), ex, used);
        let (name, normal) = unbound.last();
        let j = first_where(ex.len() as int, structure_pred(st.used, ex, normal));
        if j >= 0 {
            DriftState {
                used: st.used.update(j, true),
                name_drift: st.name_drift.push((name, ex[j].0)),
                to_create: st.to_create,
            }
        } else {
            DriftState { to_create: st.to_create.push(name), ..st }
        }
    }
}

/// The existing indexes that nothing bound, other than `_id_` and the external
/// ones.
pub open spec fn unbound_existing(ex: Seq<(Seq<char>, NormalIndexV)>, used: Seq<bool>, external: Seq<Seq<char>>) -> Seq<Seq<char>>
    decreases ex.len(),
{
    if ex.len() == 0 {
        Seq::empty()
    } else {
        let i = ex.len() - 1;
        let before = unbound_existing(ex.drop_last(), used, external);
        if !used[i] && ex[i].0 != "_id_"@ && !external.contains(ex[i].0) {
            before.push(ex[i].0)
        } else {
            before
        }
    }
}

/// The external indexes that no existing index is named after.
pub open spec fn missing_external(external: Seq<Seq<char>>, ex: Seq<(Seq<char>, NormalIndexV)>) -> Seq<Seq<char>>
    decreases external.len(),
{
    if external.len() == 0 {
        Seq::empty()
    } else {
        let before = missing_external(external.drop_last(), ex);
        let x = external.last();
        if !(exists|j: int| 0 <= j < ex.len() && ex[j].0 == x) {
            before.push(x)
        } else {
            before
        }
    }
}

/// The diff, as plain values.
pub struct DiffV {
    pub to_create: Seq<Seq<char>>,
    pub to_drop: Seq<Seq<char>>,
    pub mismatched: Seq<Seq<char>>,
    pub name_drift: Seq<(Seq<char>, Seq<char>)>,
    pub missing_external: Seq<Seq<char>>,
}

/// The diff between declared index listings and existing ones.  Declared
/// indexes are first bound, in order, to the first unbound existing index of
/// the same name (a different structure makes them mismatched); the rest to
/// the first unbound existing index other than `_id_` with the same
/// structure under strict collation rules (name drift), or else they are to
/// be created.  Existing indexes left unbound are to be dropped, except `_id_`
/// and external ones; external names with no existing index are missing.
pub open spec fn diff_spec(
    declared: Seq<(Seq<char>, DocV)>,
    existing: Seq<DocV>,
    external: Seq<Seq<char>>,
) -> DiffV {
    let ex = existing_named(existing);
    let b = bind_by_name(declared_named(declared), ex);
    let d = bind_by_structure(b.unbound, ex, b.used);
    DiffV {
        to_create: d.to_create,
        to_drop: unbound_existing(ex, d.used, external),
        mismatched: b.mismatched,
        name_drift: d.name_drift,
        missing_external: missing_external(external, ex),
    }
}

impl IndexDiff {
    pub open spec fn view_diff(&self) -> DiffV {
        DiffV {
            to_create: strings_view(self.to_create@),
            to_drop: strings_view(self.to_drop@),
            mismatched: strings_view(self.mismatched@),
            name_drift: self.name_drift@.map_values(|d: NameDrift| (d.expected@, d.actual@)),
            missing_external: strings_view(self.missing_external@),
        }
    }
}


pub open spec fn named_view(v: Seq<(String, NormalIndex)>) -> Seq<(Seq<char>, NormalIndexV)> {
    v.map_values(|e: (String, NormalIndex)| (e.0@, e.1@))
}

fn find_by_name(ex: &Vec<(String, NormalIndex)>, used: &Vec<bool>, name: &String) -> (r: Option<usize>)
    requires
        used@.len() == ex@.len(),
    ensures
        match r {
            Some(j) => j < ex@.len() && first_where(ex@.len() as int, name_pred(used@, named_view(ex@), name@)) == j,
            None => first_where(ex@.len() as int, name_pred(used@, named_view(ex@), name@)) == -1,
        },
{
    let ghost p = name_pred(used@, named_view(ex@), name@);
    let mut k: usize = 0;
    while k < ex.len()
        invariant
            k <= ex@.len(),
            used@.len() == ex@.len(),
            p == name_pred(used@, named_view(ex@), name@),
            forall|j: int| 0 <= j < k ==> !#[trigger] p(j),
        decreases ex.len() - k,
    {
        if !used[k] && ex[k].0 == *name {
            proof {
                assert(p(k as int));
                lemma_first_where_found(ex@.len() as int, p, k as int);
            }
            return Some(k);
        }
        assert(!p(k as int));
        k = k + 1;
    }
    proof {
        lemma_first_where_none(ex@.len() as int, p);
    }
    None
}

fn find_by_structure(ex: &Vec<(String, NormalIndex)>, used: &Vec<bool>, normal: &NormalIndex) -> (r: Option<usize>)
    requires
        used@.len() == ex@.len(),
    ensures
        match r {
            Some(j) => j < ex@.len() && first_where(ex@.len() as int, structure_pred(used@, named_view(ex@), normal@)) == j,
            None => first_where(ex@.len() as int, structure_pred(used@, named_view(ex@), normal@)) == -1,
        },
{
    let ghost p = structure_pred(used@, named_view(ex@), normal@);
    let mut k: usize = 0;
    while k < ex.len()
        invariant
            k <= ex@.len(),
            used@.len() == ex@.len(),
            p == structure_pred(used@, named_view(ex@), normal@),
            forall|j: int| 0 <= j < k ==> !#[trigger] p(j),
        decreases ex.len() - k,
    {
        if !used[k] && !str_eq(ex[k].0.as_str(), "_id_") && structures_match(normal, &ex[k].1, true) {
            proof {
                assert(p(k as int));
                lemma_first_where_found(ex@.len() as int, p, k as int);
            }
            return Some(k);
        }
        assert(!p(k as int));
        k = k + 1;
    }
    proof {
        lemma_first_where_none(ex@.len() as int, p);
    }
    None
}


pub open spec fn declared_view(v: Seq<(String, Document)>) -> Seq<(Seq<char>, DocV)> {
    v.map_values(|e: (String, Document)| (e.0@, e.1@))
}

pub open spec fn listings_view(v: Seq<Document>) -> Seq<DocV> {
    v.map_values(|d: Document| d@)
}

/// The diff between the declared indexes (each a name with the listing the
/// server would show for it) and the listings the server has.
pub fn compute_diff(declared: &Vec<(String, Document)>, existing: &Vec<Document>, external: &Vec<String>) -> (d: IndexDiff)
    ensures
        d.view_diff() == diff_spec(declared_view(declared@), listings_view(existing@), strings_view(external@)),
{
    let ghost lv = listings_view(existing@);
    let ghost extv = strings_view(external@);
    // The named existing listings.
    let mut ex: Vec<(String, NormalIndex)> = Vec::new();
    let mut i: usize = 0;
    while i < existing.len()
        invariant
            i <= existing@.len(),
            lv == listings_view(existing@),
            named_view(ex@) == existing_named(lv.take(i as int)),
        decreases existing.len() - i,
    {
        let listing = &existing[i];
        assert(lv.take(i + 1).drop_last() == lv.take(i as int));
        assert(lv.take(i + 1).last() == listing@);
        match listing.get("name") {
            Some(Bson::String(n)) => {
                let ghost e0 = ex@;
                ex.push((n.clone(), normalize(listing)));
                assert(named_view(ex@) =~= named_view(e0).push((n@, normal_index(listing@))));
            },
            _ => {},
        }
        i = i + 1;
    }
    assert(lv.take(i as int) == lv);
    let ghost exv = named_view(ex@);
    // The declared indexes in canonical form.
    let ghost dv = declared_named(declared_view(declared@));
    let mut decl: Vec<(String, NormalIndex)> = Vec::new();
    let mut i: usize = 0;
    while i < declared.len()
        invariant
            i <= declared@.len(),
            dv == declared_named(declared_view(declared@)),
            named_view(decl@) == dv.take(i as int),
        decreases declared.len() - i,
    {
        let ghost d0 = decl@;
        assert(declared_view(declared@)[i as int] == (declared@[i as int].0@, declared@[i as int].1@));
        assert(dv[i as int] == (declared@[i as int].0@, normal_index(declared@[i as int].1@)));
        let item = (declared[i].0.clone(), normalize(&declared[i].1));
        decl.push(item);
        assert(named_view(decl@) =~= named_view(d0).push((item.0@, item.1@)));
        assert(dv.take(i + 1) =~= dv.take(i as int).push(dv[i as int]));
        i = i + 1;
    }
    assert(dv.take(i as int) == dv);
    // Binding by name.
    let mut used: Vec<bool> = Vec::new();
    let mut k: usize = 0;
    while k < ex.len()
        invariant
            k <= ex@.len(),
            used@.len() == k,
            forall|j: int| 0 <= j < k ==> !used@[j],
        decreases ex.len() - k,
    {
        used.push(false);
        k = k + 1;
    }
    assert(used@ =~= Seq::new(exv.len(), |i: int| false));
    let mut mismatched: Vec<String> = Vec::new();
    let mut unbound: Vec<(String, NormalIndex)> = Vec::new();
    let ghost n: int = decl@.len() as int;
    let mut rest = decl;
    while rest.len() > 0
        invariant
            n == dv.len(),
            rest@.len() <= n,
            exv == named_view(ex@),
            forall|j: int| 0 <= j < rest@.len() ==> #[trigger] named_view(rest@)[j] == dv[n - rest@.len() + j],
            used@ == bind_by_name(dv.take(n - rest@.len()), exv).used,
            strings_view(mismatched@) == bind_by_name(dv.take(n - rest@.len()), exv).mismatched,
            named_view(unbound@) == bind_by_name(dv.take(n - rest@.len()), exv).unbound,
            used@.len() == ex@.len(),
        decreases rest@.len(),
    {
        let ghost idx: int = n - rest@.len();
        let ghost before = rest@;
        assert(named_view(before)[0] == dv[idx]);
        let (name, normal) = rest.remove(0);
        assert(forall|j: int| 0 <= j < rest@.len() ==> named_view(rest@)[j] == named_view(before)[j + 1]);
        assert(dv.take(idx + 1).drop_last() == dv.take(idx));
        assert(dv.take(idx + 1).last() == (name@, normal@));
        match find_by_name(&ex, &used, &name) {
            Some(j) => {
                let ghost u0 = used@;
                used.set(j, true);
                if !structures_match(&normal, &ex[j].1, false) {
                    let ghost m0 = mismatched@;
                    mismatched.push(name);
                    assert(strings_view(mismatched@) =~= strings_view(m0).push(name@));
                }
            },
            None => {
                let ghost b0 = unbound@;
                unbound.push((name, normal));
                assert(named_view(unbound@) =~= named_view(b0).push((name@, normal@)));
            },
        }
    }
    assert(dv.take(n) == dv);
    let ghost bstate = bind_by_name(dv, exv);
    // Binding the rest by structure.
    let ghost ub = named_view(unbound@);
    let ghost used0 = used@;
    let mut name_drift: Vec<NameDrift> = Vec::new();
    let mut to_create: Vec<String> = Vec::new();
    let ghost m: int = unbound@.len() as int;
    let mut rest = unbound;
    while rest.len() > 0
        invariant
            m == ub.len(),
            rest@.len() <= m,
            exv == named_view(ex@),
            forall|j: int| 0 <= j < rest@.len() ==> #[trigger] named_view(rest@)[j] == ub[m - rest@.len() + j],
            used@ == bind_by_structure(ub.take(m - rest@.len()), exv, used0).used,
            name_drift@.map_values(|d: NameDrift| (d.expected@, d.actual@)) == bind_by_structure(ub.take(m - rest@.len()), exv, used0).name_drift,
            strings_view(to_create@) == bind_by_structure(ub.take(m - rest@.len()), exv, used0).to_create,
            used@.len() == ex@.len(),
        decreases rest@.len(),
    {
        let ghost idx: int = m - rest@.len();
        let ghost before = rest@;
        assert(named_view(before)[0] == ub[idx]);
        let (name, normal) = rest.remove(0);
        assert(forall|j: int| 0 <= j < rest@.len() ==> named_view(rest@)[j] == named_view(before)[j + 1]);
        assert(ub.take(idx + 1).drop_last() == ub.take(idx));
        assert(ub.take(idx + 1).last() == (name@, normal@));
        match find_by_structure(&ex, &used, &normal) {
            Some(j) => {
                used.set(j, true);
                let ghost nd0 = name_drift@;
                let drift = NameDrift { expected: name, actual: ex[j].0.clone() };
                name_drift.push(drift);
                assert(name_drift@.map_values(|d: NameDrift| (d.expected@, d.actual@)) =~= nd0.map_values(|d: NameDrift| (d.expected@, d.actual@)).push((drift.expected@, drift.actual@)));
            },
            None => {
                let ghost c0 = to_create@;
                to_create.push(name);
                assert(strings_view(to_create@) =~= strings_view(c0).push(name@));
            },
        }
    }
    assert(ub.take(m) == ub);
    // What nothing bound.
    let mut to_drop: Vec<String> = Vec::new();
    let mut k: usize = 0;
    while k < ex.len()
        invariant
            k <= ex@.len(),
            used@.len() == ex@.len(),
            exv == named_view(ex@),
            extv == strings_view(external@),
            strings_view(to_drop@) == unbound_existing(exv.take(k as int), used@, extv),
        decreases ex.len() - k,
    {
        let name = &ex[k].0;
        assert(exv.take(k + 1).drop_last() == exv.take(k as int));
        assert(exv.take(k + 1)[k as int].0 == name@);
        if !used[k] && !str_eq(name.as_str(), "_id_") && !strings_contain(external, name.as_str()) {
            let ghost t0 = to_drop@;
            to_drop.push(name.clone());
            assert(strings_view(to_drop@) =~= strings_view(t0).push(name@));
        }
        k = k + 1;
    }
    assert(exv.take(k as int) == exv);
    // External indexes the server lacks.
    let mut missing: Vec<String> = Vec::new();
    let mut k: usize = 0;
    while k < external.len()
        invariant
            k <= external@.len(),
            exv == named_view(ex@),
            extv == strings_view(external@),
            strings_view(missing@) == missing_external(extv.take(k as int), exv),
        decreases external.len() - k,
    {
        let x = &external[k];
        assert(extv.take(k + 1).drop_last() == extv.take(k as int));
        assert(extv.take(k + 1).last() == x@);
        let mut found = false;
        let mut j: usize = 0;
        while j < ex.len()
            invariant
                j <= ex@.len(),
                exv == named_view(ex@),
                found == exists|t: int| 0 <= t < j && exv[t].0 == x@,
            decreases ex.len() - j,
        {
            if ex[j].0 == *x {
                assert(exv[j as int].0 == x@);
                found = true;
            }
            j = j + 1;
        }
        if !found {
            let ghost m0 = missing@;
            missing.push(x.clone());
            assert(strings_view(missing@) =~= strings_view(m0).push(x@));
        }
        k = k + 1;
    }
    assert(extv.take(k as int) == extv);
    IndexDiff { to_create, to_drop, mismatched, name_drift, missing_external: missing }
}

/// The actual names of drifted indexes that are not external, in order.
pub open spec fn drifted_drops(drift: Seq<(Seq<char>, Seq<char>)>, external: Seq<Seq<char>>) -> Seq<Seq<char>>
    decreases drift.len(),
{
    if drift.len() == 0 {
        Seq::empty()
    } else {
        let before = drifted_drops(drift.drop_last(), external);
        if external.contains(drift.last().1) {
            before
        } else {
            before.push(drift.last().1)
        }
    }
}

/// What a sync drops, in order: the indexes nothing declares, the mismatched
/// ones, and the drifted ones that are not external.
pub open spec fn sync_drops(d: DiffV, external: Seq<Seq<char>>) -> Seq<Seq<char>> {
    d.to_drop + d.mismatched + drifted_drops(d.name_drift, external)
}

/// What a sync creates, in order: the missing declared indexes, the
/// mismatched ones, and the drifted ones under their declared names.
pub open spec fn sync_creates(d: DiffV) -> Seq<Seq<char>> {
    d.to_create + d.mismatched + d.name_drift.map_values(|x: (Seq<char>, Seq<char>)| x.0)
}

fn append_strings(out: &mut Vec<String>, items: &Vec<String>)
    ensures
        strings_view(final(out)@) == strings_view(old(out)@) + strings_view(items@),
{
    let ghost start = strings_view(out@);
    let mut i: usize = 0;
    while i < items.len()
        invariant
            i <= items@.len(),
            strings_view(out@) == start + strings_view(items@).take(i as int),
        decreases items.len() - i,
    {
        let ghost o0 = strings_view(out@);
        out.push(items[i].clone());
        assert(strings_view(out@) =~= o0.push(items@[i as int]@));
        assert(strings_view(items@).take(i + 1) =~= strings_view(items@).take(i as int).push(items@[i as int]@));
        i = i + 1;
    }
    assert(strings_view(items@).take(i as int) =~= strings_view(items@));
}

/// The indexes a sync drops and the declared names it creates afterwards.
pub fn sync_plan(diff: &IndexDiff, external: &Vec<String>) -> (r: (Vec<String>, Vec<String>))
    ensures
        strings_view(r.0@) == sync_drops(diff.view_diff(), strings_view(external@)),
        strings_view(r.1@) == sync_creates(diff.view_diff()),
{
    let ghost dv = diff.view_diff();
    let ghost extv = strings_view(external@);
    let ghost drifts = diff.name_drift@.map_values(|d: NameDrift| (d.expected@, d.actual@));
    let mut drops: Vec<String> = Vec::new();
    append_strings(&mut drops, &diff.to_drop);
    append_strings(&mut drops, &diff.mismatched);
    let ghost head = strings_view(drops@);
    let mut i: usize = 0;
    while i < diff.name_drift.len()
        invariant
            i <= diff.name_drift@.len(),
            drifts == diff.name_drift@.map_values(|d: NameDrift| (d.expected@, d.actual@)),
            extv == strings_view(external@),
            strings_view(drops@) == head + drifted_drops(drifts.take(i as int), extv),
        decreases diff.name_drift.len() - i,
    {
        let actual = &diff.name_drift[i].actual;
        assert(drifts.take(i + 1).drop_last() =~= drifts.take(i as int));
        assert(drifts.take(i + 1).last().1 == actual@);
        if !strings_contain(external, actual.as_str()) {
            let ghost o0 = strings_view(drops@);
            drops.push(actual.clone());
            assert(strings_view(drops@) =~= o0.push(actual@));
        }
        i = i + 1;
    }
    assert(drifts.take(i as int) =~= drifts);
    let mut creates: Vec<String> = Vec::new();
    append_strings(&mut creates, &diff.to_create);
    append_strings(&mut creates, &diff.mismatched);
    let ghost head2 = strings_view(creates@);
    let ghost expected = drifts.map_values(|x: (Seq<char>, Seq<char>)| x.0);
    let mut i: usize = 0;
    while i < diff.name_drift.len()
        invariant
            i <= diff.name_drift@.len(),
            drifts == diff.name_drift@.map_values(|d: NameDrift| (d.expected@, d.actual@)),
            expected == drifts.map_values(|x: (Seq<char>, Seq<char>)| x.0),
            strings_view(creates@) == head2 + expected.take(i as int),
        decreases diff.name_drift.len() - i,
    {
        let ghost o0 = strings_view(creates@);
        creates.push(diff.name_drift[i].expected.clone());
        assert(strings_view(creates@) =~= o0.push(diff.name_drift@[i as int].expected@));
        assert(expected.take(i + 1) =~= expected.take(i as int).push(expected[i as int]));
        i = i + 1;
    }
    assert(expected.take(i as int) =~= expected);
    assert(strings_view(drops@) =~= sync_drops(dv, extv));
    assert(strings_view(creates@) =~= sync_creates(dv));
    (drops, creates)
}

/// The positions, in declaration order, of the declared names that occur in `names`.
pub open spec fn selected(declared: Seq<Seq<char>>, names: Seq<Seq<char>>) -> Seq<int>
    decreases declared.len(),
{
    if declared.len() == 0 {
        Seq::empty()
    } else {
        let before = selected(declared.drop_last(), names);
        if names.contains(declared.last()) {
            before.push(declared.len() - 1)
        } else {
            before
        }
    }
}

/// The declared names of `specs`.
pub open spec fn spec_names(specs: Seq<&IndexSpec>) -> Seq<Seq<char>> {
    specs.map_values(|s: &IndexSpec| s.name@)
}

/// The positions of the declared indexes whose names are in `names`, in
/// declaration order: the ones a sync creates.
pub fn select_named(specs: &Vec<&IndexSpec>, names: &Vec<String>) -> (r: Vec<usize>)
    ensures
        r@.map_values(|i: usize| i as int) == selected(spec_names(specs@), strings_view(names@)),
{
    let ghost sn = spec_names(specs@);
    let ghost nv = strings_view(names@);
    let mut out: Vec<usize> = Vec::new();
    let mut i: usize = 0;
    while i < specs.len()
        invariant
            i <= specs@.len(),
            sn == spec_names(specs@),
            nv == strings_view(names@),
            out@.map_values(|i: usize| i as int) == selected(sn.take(i as int), nv),
        decreases specs.len() - i,
    {
        assert(sn.take(i + 1).drop_last() =~= sn.take(i as int));
        assert(sn.take(i + 1).last() == specs@[i as int].name@);
        if strings_contain(names, specs[i].name) {
            let ghost o0 = out@;
            out.push(i);
            assert(out@.map_values(|i: usize| i as int) =~= o0.map_values(|i: usize| i as int).push(i as int));
        }
        i = i + 1;
    }
    assert(sn.take(i as int) =~= sn);
    out
}

/// What verifying the indexes answers for `diff`: success, or the drift.
pub fn verify_outcome(diff: IndexDiff) -> (r: Result<(), Error>)
    ensures
        !diff.spec_fails_verify() ==> r is Ok,
        diff.spec_fails_verify() ==> r == Err::<(), Error>(Error::IndexDrift(diff)),
{
    if diff.fails_verify() {
        Err(Error::IndexDrift(diff))
    } else {
        Ok(())
    }
}

/// An empty diff passes verification, and a sync on it drops and creates
/// nothing.
pub proof fn lemma_empty_diff_is_in_sync(d: IndexDiff, external: Seq<Seq<char>>)
    requires
        d.spec_is_empty(),
    ensures
        !d.spec_fails_verify(),
        sync_drops(d.view_diff(), external).len() == 0,
        sync_creates(d.view_diff()).len() == 0,
{
}

/// A diff that fails verification is not empty; one that passes has no
/// declared index missing, mismatched or drifted, so a sync creates nothing.
pub proof fn lemma_verified_diff_creates_nothing(d: IndexDiff, external: Seq<Seq<char>>)
    requires
        !d.spec_fails_verify(),
    ensures
        sync_creates(d.view_diff()).len() == 0,
        sync_drops(d.view_diff(), external) == strings_view(d.to_drop@),
{
    assert(d.view_diff().name_drift.len() == 0);
    assert(drifted_drops(d.view_diff().name_drift, external) =~= Seq::<Seq<char>>::empty());
    assert(sync_drops(d.view_diff(), external) =~= strings_view(d.to_drop@));
}

/// The server's code for a collection that does not exist.
pub const NAMESPACE_NOT_FOUND_CODE: i32 = 26;

/// A listing of indexes failed because the collection does not exist yet,
/// which reads as no indexes at all.
pub fn is_namespace_missing(error: &DriverError) -> (b: bool)
    ensures
        b == (error.kind matches DriverErrorKind::Command { code } && code == NAMESPACE_NOT_FOUND_CODE),
{
    match &error.kind {
        DriverErrorKind::Command { code } => *code == NAMESPACE_NOT_FOUND_CODE,
        _ => false,
    }
}

/// The named listings read back from listings that all carry their names.
pub(crate) proof fn lemma_existing_named_all(listings: Seq<DocV>, names: Seq<Seq<char>>)
    requires
        names.len() == listings.len(),
        forall|i: int| 0 <= i < listings.len() ==> doc_get(#[trigger] listings[i], "name"@) == Some(BsonV::Str(names[i])),
    ensures
        existing_named(listings) =~= Seq::new(listings.len(), |i: int| (names[i], normal_index(listings[i]))),
    decreases listings.len(),
{
    if listings.len() > 0 {
        let n = listings.len() - 1;
        assert(forall|i: int| 0 <= i < n ==> listings.drop_last()[i] == listings[i]);
        lemma_existing_named_all(listings.drop_last(), names.drop_last());
        assert(listings.last() == listings[n as int]);
    }
}

} // verus!

//! Typed update documents.
use vstd::prelude::*;

use core::marker::PhantomData;

use crate::bson::{
    Bson, BsonV, DocV, Document, array_view, bson_view, doc_get, doc_insert, entries_view,
    first_key, has_key, is_first_key, lemma_array_view, lemma_entries_view,
    lemma_first_key_unique,
};
use crate::error::{Error, same_error};
use crate::field::{ArrayLike, Field, Ordered, Updatable, VersionField};
use crate::filter::op_doc;
use crate::text::{owned, push_str, str_eq};

verus! {

broadcast use vstd::string::group_string_axioms;

/// An update of entity `E`, or the first failure met while building it.
#[derive(Debug)]
pub struct Update<E> {
    doc: Document,
    deferred_error: Option<Error>,
    _marker: PhantomData<E>,
}

/// Writing the paths of `incoming` into the operator document `existing` in
/// order; the first path that was already written (under operator `op`) is
/// noted, unless an earlier one was.
pub open spec fn merge_paths(
    existing: DocV,
    incoming: DocV,
    op: Seq<char>,
    repeated: Option<(Seq<char>, Seq<char>)>,
) -> (DocV, Option<(Seq<char>, Seq<char>)>)
    decreases incoming.len(),
{
    if incoming.len() == 0 {
        (existing, repeated)
    } else {
        let (ex, rep) = merge_paths(existing, incoming.drop_last(), op, repeated);
        let (path, value) = incoming.last();
        (
            doc_insert(ex, path, value),
            if rep is None && has_key(ex, path) {
                Some((path, op))
            } else {
                rep
            },
        )
    }
}

/// One operator entry of the incoming update joining the update `doc`: two
/// operator documents merge path by path; anything else replaces.
pub open spec fn merge_entry(
    doc: DocV,
    entry: (Seq<char>, BsonV),
    repeated: Option<(Seq<char>, Seq<char>)>,
) -> (DocV, Option<(Seq<char>, Seq<char>)>) {
    let (op, value) = entry;
    match (doc_get(doc, op), value) {
        (Some(BsonV::Doc(existing)), BsonV::Doc(incoming)) => {
            let (merged, rep) = merge_paths(existing, incoming, op, repeated);
            (doc_insert(doc, op, BsonV::Doc(merged)), rep)
        },
        _ => (doc_insert(doc, op, value), repeated),
    }
}

/// All operator entries of `other` joining `doc`, in order.
pub open spec fn merge_updates(doc: DocV, other: DocV) -> (DocV, Option<(Seq<char>, Seq<char>)>)
    decreases other.len(),
{
    if other.len() == 0 {
        (doc, None)
    } else {
        let (d, rep) = merge_updates(doc, other.drop_last());
        merge_entry(d, other.last(), rep)
    }
}

/// The message of an update that writes `path` twice through `op`.
pub open spec fn repeated_message(path: Seq<char>, op: Seq<char>) -> Seq<char> {
    if op == "$push"@ {
        "`"@ + path + "` is written twice through `$push`. Use `push_each` to push several values"@
    } else {
        "`"@ + path + "` is written twice through `"@ + op + "`"@
    }
}

impl<E> Update<E> {
    pub closed spec fn spec_doc(&self) -> DocV {
        self.doc@
    }

    pub closed spec fn spec_error(&self) -> Option<Error> {
        self.deferred_error
    }

    /// An update that is exactly `doc`.
    pub fn raw(doc: Document) -> (u: Self)
        ensures
            u.spec_doc() == doc@,
            u.spec_error() is None,
    {
        Update { doc, deferred_error: None, _marker: PhantomData }
    }

    /// An update that carries a failure met while building it.
    pub fn rejected(error: Error) -> (u: Self)
        ensures
            u.spec_doc() == Seq::<(Seq<char>, BsonV)>::empty(),
            u.spec_error() == Some(error),
    {
        Update { doc: Document::new(), deferred_error: Some(error), _marker: PhantomData }
    }

    /// Both updates, `other` after `self`.  Operator documents merge path by
    /// path; a path written twice through the same operator is refused with
    /// `InvalidUpdate`, unless a failure was already carried.
    pub fn and(self, other: Update<E>) -> (u: Update<E>)
        ensures
            u.spec_doc() == merge_updates(self.spec_doc(), other.spec_doc()).0,
            self.spec_error() is Some ==> u.spec_error() == self.spec_error(),
            self.spec_error() is None && other.spec_error() is Some ==> u.spec_error()
                == other.spec_error(),
            self.spec_error() is None && other.spec_error() is None ==> match merge_updates(
                self.spec_doc(),
                other.spec_doc(),
            ).1 {
                Some((path, op)) => u.spec_error() matches Some(Error::InvalidUpdate { message })
                    && message@ == repeated_message(path, op),
                None => u.spec_error() is None,
            },
    {
        let Update { doc, deferred_error, .. } = self;
        let Update { doc: other_doc, deferred_error: other_error, .. } = other;
        let ghost start = doc@;
        let ghost all = other_doc@;
        let mut doc = doc;
        let mut rest = other_doc.entries;
        let mut repeated: Option<(String, String)> = None;
        proof {
            lemma_entries_view(rest@);
        }
        let ghost n: int = rest@.len() as int;
        while rest.len() > 0
            invariant
                n == all.len(),
                rest@.len() <= n,
                forall|j: int|
                    0 <= j < rest@.len() ==> (#[trigger] rest@[j].0@, bson_view(rest@[j].1)) == all[n
                        - rest@.len() + j],
                (doc@, rep_view(repeated)) == merge_updates(start, all.take(n - rest@.len())),
            decreases rest@.len(),
        {
            let ghost i: int = n - rest@.len();
            let ghost before = rest@;
            assert((before[0].0@, bson_view(before[0].1)) == all[i]);
            let (op, value) = rest.remove(0);
            assert(all.take(i + 1).drop_last() == all.take(i));
            merge_one(&mut doc, op, value, &mut repeated);
        }
        assert(all.take(n) == all);
        let deferred_error = match deferred_error {
            Some(e) => Some(e),
            None => match other_error {
                Some(e) => Some(e),
                None => match repeated {
                    Some((path, op)) => Some(Error::InvalidUpdate { message: repeated_text(&path, &op) }),
                    None => None,
                },
            },
        };
        Update { doc, deferred_error, _marker: PhantomData }
    }

    /// A copy of the update.
    pub fn duplicate(&self) -> (u: Self)
        ensures
            u.spec_doc() == self.spec_doc(),
            match (u.spec_error(), self.spec_error()) {
                (Some(a), Some(b)) => same_error(a, b),
                (None, None) => true,
                _ => false,
            },
    {
        Update {
            doc: self.doc.duplicate(),
            deferred_error: match &self.deferred_error {
                Some(e) => Some(e.duplicate()),
                None => None,
            },
            _marker: PhantomData,
        }
    }

    /// The update document, or the first failure met while building it.
    pub fn into_document(self) -> (r: Result<Document, Error>)
        ensures
            match self.spec_error() {
                Some(e) => r == Err::<Document, Error>(e),
                None => r matches Ok(d) && d@ == self.spec_doc(),
            },
    {
        match self.deferred_error {
            Some(error) => Err(error),
            None => Ok(self.doc),
        }
    }

    /// `{ op: { path: value } }`, or an update carrying the failure to encode
    /// the value.
    pub fn field_op(op: &str, path: &str, value: Result<Bson, Error>) -> (u: Self)
        ensures
            match value {
                Ok(v) => u.spec_doc() == op_doc(op@, path@, v@) && u.spec_error() is None,
                Err(e) => u.spec_doc().len() == 0 && u.spec_error() == Some(e),
            },
    {
        match value {
            Ok(value) => Update::raw(crate::filter::op_document(op, path, value)),
            Err(error) => Update::rejected(error),
        }
    }
}

pub open spec fn rep_view(r: Option<(String, String)>) -> Option<(Seq<char>, Seq<char>)> {
    match r {
        Some((p, o)) => Some((p@, o@)),
        None => None,
    }
}

/// The message for `path` written twice through `op`.
fn repeated_text(path: &String, op: &String) -> (m: String)
    ensures
        m@ == repeated_message(path@, op@),
{
    let mut m = owned("`");
    push_str(&mut m, path.as_str());
    if str_eq(op.as_str(), "$push") {
        push_str(&mut m, "` is written twice through `$push`. Use `push_each` to push several values");
    } else {
        push_str(&mut m, "` is written twice through `");
        push_str(&mut m, op.as_str());
        push_str(&mut m, "`");
    }
    m
}

/// One operator entry joining `doc`.
fn merge_one(doc: &mut Document, op: String, value: Bson, repeated: &mut Option<(String, String)>)
    ensures
        (final(doc)@, rep_view(*final(repeated))) == merge_entry(
            old(doc)@,
            (op@, value@),
            rep_view(*old(repeated)),
        ),
{
    proof {
        lemma_entries_view(doc.entries@);
    }
    let pos = doc.position(op.as_str());
    let mut both_documents = false;
    match pos {
        Some(i) => {
            match (&doc.entries[i].1, &value) {
                (Bson::Document(_), Bson::Document(_)) => {
                    both_documents = true;
                },
                _ => {},
            }
        },
        None => {},
    }
    if both_documents {
        let i = pos.unwrap();
        let ghost d0 = doc@;
        let (key, existing) = doc.entries.remove(i);
        match (existing, value) {
            (Bson::Document(existing), Bson::Document(incoming)) => {
                let merged = merge_paths_into(existing, incoming, &op, repeated);
                let ghost before = doc.entries@;
                doc.entries.insert(i, (key, Bson::Document(merged)));
                proof {
                    lemma_entries_view(doc.entries@);
                    lemma_entries_view(before);
                    assert(doc@ =~= d0.update(i as int, (op@, BsonV::Doc(merged@))));
                }
            },
            _ => {
                assert(false);
            },
        }
    } else {
        doc.insert(op, value);
    }
}

/// The paths of `incoming` written into `existing`, noting the first repeat.
fn merge_paths_into(
    existing: Document,
    incoming: Document,
    op: &String,
    repeated: &mut Option<(String, String)>,
) -> (d: Document)
    ensures
        (d@, rep_view(*final(repeated))) == merge_paths(
            existing@,
            incoming@,
            op@,
            rep_view(*old(repeated)),
        ),
{
    let ghost all = incoming@;
    let ghost start = existing@;
    let ghost r0 = rep_view(*repeated);
    let mut ex = existing;
    let mut rest = incoming.entries;
    proof {
        lemma_entries_view(rest@);
    }
    let ghost n: int = rest@.len() as int;
    while rest.len() > 0
        invariant
            n == all.len(),
            rest@.len() <= n,
            forall|j: int|
                0 <= j < rest@.len() ==> (#[trigger] rest@[j].0@, bson_view(rest@[j].1)) == all[n
                    - rest@.len() + j],
            (ex@, rep_view(*repeated)) == merge_paths(start, all.take(n - rest@.len()), op@, r0),
        decreases rest@.len(),
    {
        let ghost i: int = n - rest@.len();
        let ghost before = rest@;
        assert((before[0].0@, bson_view(before[0].1)) == all[i]);
        let (path, value) = rest.remove(0);
        assert(all.take(i + 1).drop_last() == all.take(i));
        if repeated.is_none() && ex.contains_key(path.as_str()) {
            *repeated = Some((path.clone(), op.clone()));
        }
        ex.insert(path, value);
    }
    assert(all.take(n) == all);
    ex
}

/// The documents of the updates, in order.
pub open spec fn docs_of<E>(updates: Seq<Update<E>>) -> Seq<DocV> {
    updates.map_values(|u: Update<E>| u.spec_doc())
}

/// Joining `updates` meets trouble at step `k`: the update carries a
/// failure, or it writes a path through an operator that the updates before
/// it already wrote through.
pub open spec fn step_trouble<E>(updates: Seq<Update<E>>, k: int) -> bool {
    updates[k].spec_error() is Some || merge_updates(apply_docs(docs_of(updates).take(k)), updates[k].spec_doc()).1 is Some
}

/// The first step among the first `n` that meets trouble.
pub open spec fn first_trouble<E>(updates: Seq<Update<E>>, n: int) -> Option<int>
    decreases n,
{
    if n <= 0 {
        None
    } else {
        match first_trouble(updates, n - 1) {
            Some(k) => Some(k),
            None => if step_trouble(updates, n - 1) {
                Some(n - 1)
            } else {
                None
            },
        }
    }
}

/// `e` is the failure met at step `k`: the update's own failure, or else the
/// refusal of the path written twice.
pub open spec fn failure_at<E>(updates: Seq<Update<E>>, k: int, e: Option<Error>) -> bool {
    if updates[k].spec_error() is Some {
        e == updates[k].spec_error()
    } else {
        let (path, op) = merge_updates(apply_docs(docs_of(updates).take(k)), updates[k].spec_doc()).1->0;
        e matches Some(Error::InvalidUpdate { message }) && message@ == repeated_message(path, op)
    }
}

/// An update that carries a failure makes the join meet trouble.
pub proof fn lemma_failed_update_is_trouble<E>(updates: Seq<Update<E>>, n: int, i: int)
    requires
        0 <= i < n <= updates.len(),
        updates[i].spec_error() is Some,
    ensures
        first_trouble(updates, n) is Some,
    decreases n,
{
    if i < n - 1 {
        lemma_failed_update_is_trouble(updates, n - 1, i);
    }
}

/// All the updates, in order, joined by `and`: the merged document, and the
/// first failure met, which is an update's own failure or the refusal of a
/// path written twice. An update that carries a failure makes the result
/// carry one.
pub fn apply<E>(updates: Vec<Update<E>>) -> (u: Update<E>)
    ensures
        u.spec_doc() == apply_docs(updates@.map_values(|u: Update<E>| u.spec_doc())),
        match first_trouble(updates@, updates@.len() as int) {
            None => u.spec_error() is None,
            Some(k) => failure_at(updates@, k, u.spec_error()),
        },
        (exists|i: int| 0 <= i < updates@.len() && (#[trigger] updates@[i]).spec_error() is Some) ==> u.spec_error() is Some,
{
    let ghost all = updates@;
    let ghost docs = updates@.map_values(|u: Update<E>| u.spec_doc());
    let ghost n: int = updates@.len() as int;
    let mut acc: Update<E> = Update::raw(Document::new());
    let mut rest = updates;
    while rest.len() > 0
        invariant
            n == docs.len(),
            n == all.len(),
            docs == docs_of(all),
            rest@.len() <= n,
            forall|j: int| 0 <= j < rest@.len() ==> #[trigger] rest@[j] == all[n - rest@.len() + j],
            acc.spec_doc() == apply_docs(docs.take(n - rest@.len())),
            match first_trouble(all, n - rest@.len()) {
                None => acc.spec_error() is None,
                Some(k) => 0 <= k < n - rest@.len() && failure_at(all, k, acc.spec_error()),
            },
        decreases rest@.len(),
    {
        let ghost i: int = n - rest@.len();
        let ghost before = rest@;
        assert(before[0] == all[i]);
        let next = rest.remove(0);
        assert(docs.take(i + 1).drop_last() == docs.take(i));
        assert(docs[i] == all[i].spec_doc());
        acc = acc.and(next);
    }
    assert(docs.take(n) == docs);
    proof {
        if exists|i: int| 0 <= i < all.len() && (#[trigger] all[i]).spec_error() is Some {
            let i = choose|i: int| 0 <= i < all.len() && (#[trigger] all[i]).spec_error() is Some;
            lemma_failed_update_is_trouble(all, n, i);
        }
    }
    acc
}

/// The document of the updates joined in order, starting from nothing.
pub open spec fn apply_docs(docs: Seq<DocV>) -> DocV
    decreases docs.len(),
{
    if docs.len() == 0 {
        Seq::empty()
    } else {
        merge_updates(apply_docs(docs.drop_last()), docs.last()).0
    }
}


impl<E, T, C: Updatable, X> Field<E, T, C, X> {
    /// `{ op: { path: value } }` on this field.
    pub fn update_op(self, op: &str, value: Result<Bson, Error>) -> (u: Update<E>)
        ensures
            match value {
                Ok(v) => u.spec_doc() == op_doc(op@, self.spec_path(), v@) && u.spec_error() is None,
                Err(e) => u.spec_doc().len() == 0 && u.spec_error() == Some(e),
            },
    {
        Update::field_op(op, self.path(), value)
    }

    /// Removes the field.
    pub fn unset(self) -> (u: Update<E>)
        ensures
            u.spec_doc() == op_doc("$unset"@, self.spec_path(), BsonV::Str(Seq::empty())),
            u.spec_error() is None,
    {
        self.update_op("$unset", Ok(Bson::String(String::new())))
    }

    /// Sets the field to `value`.
    pub fn set(self, value: Bson) -> (u: Update<E>)
        ensures
            u.spec_doc() == op_doc("$set"@, self.spec_path(), value@),
            u.spec_error() is None,
    {
        self.update_op("$set", Ok(value))
    }

    /// Sets the field to `value` when an upsert inserts the document.
    pub fn set_on_insert(self, value: Bson) -> (u: Update<E>)
        ensures
            u.spec_doc() == op_doc("$setOnInsert"@, self.spec_path(), value@),
            u.spec_error() is None,
    {
        self.update_op("$setOnInsert", Ok(value))
    }
}

/// Field types stored as numbers.
pub trait Numeric {}

impl Numeric for i8 {}

impl Numeric for i16 {}

impl Numeric for i32 {}

impl Numeric for i64 {}

impl Numeric for u8 {}

impl Numeric for u16 {}

impl Numeric for u32 {}

impl Numeric for u64 {}

impl<T: Numeric> Numeric for Option<T> {}

impl<E, T: Numeric, C: Updatable, X> Field<E, T, C, X> {
    /// Adds `by` to the field.
    pub fn inc(self, by: Bson) -> (u: Update<E>)
        ensures
            u.spec_doc() == op_doc("$inc"@, self.spec_path(), by@),
            u.spec_error() is None,
    {
        self.update_op("$inc", Ok(by))
    }

    /// Multiplies the field by `by`.
    pub fn mul(self, by: Bson) -> (u: Update<E>)
        ensures
            u.spec_doc() == op_doc("$mul"@, self.spec_path(), by@),
            u.spec_error() is None,
    {
        self.update_op("$mul", Ok(by))
    }
}

impl<E, T: Ordered, C: Updatable, X> Field<E, T, C, X> {
    /// Lowers the field to `value` if it is greater.
    pub fn min(self, value: Bson) -> (u: Update<E>)
        ensures
            u.spec_doc() == op_doc("$min"@, self.spec_path(), value@),
            u.spec_error() is None,
    {
        self.update_op("$min", Ok(value))
    }

    /// Raises the field to `value` if it is smaller.
    pub fn max(self, value: Bson) -> (u: Update<E>)
        ensures
            u.spec_doc() == op_doc("$max"@, self.spec_path(), value@),
            u.spec_error() is None,
    {
        self.update_op("$max", Ok(value))
    }
}

impl<E, A: ArrayLike, C: Updatable> Field<E, A, C> {
    /// Appends `value` to the array.
    pub fn push(self, value: Bson) -> (u: Update<E>)
        ensures
            u.spec_doc() == op_doc("$push"@, self.spec_path(), value@),
            u.spec_error() is None,
    {
        self.update_op("$push", Ok(value))
    }

    /// Appends all of `values` to the array, in order.
    pub fn push_each(self, values: Vec<Bson>) -> (u: Update<E>)
        ensures
            u.spec_doc() == op_doc(
                "$push"@,
                self.spec_path(),
                BsonV::Doc(seq![("$each"@, BsonV::Array(array_view(values@)))]),
            ),
            u.spec_error() is None,
    {
        let mut each = Document::new();
        each.insert(owned("$each"), Bson::Array(values));
        self.update_op("$push", Ok(Bson::Document(each)))
    }

    /// Removes every element equal to `value`.
    pub fn pull(self, value: Bson) -> (u: Update<E>)
        ensures
            u.spec_doc() == op_doc("$pull"@, self.spec_path(), value@),
            u.spec_error() is None,
    {
        self.update_op("$pull", Ok(value))
    }

    /// Appends `value` unless the array holds it.
    pub fn add_to_set(self, value: Bson) -> (u: Update<E>)
        ensures
            u.spec_doc() == op_doc("$addToSet"@, self.spec_path(), value@),
            u.spec_error() is None,
    {
        self.update_op("$addToSet", Ok(value))
    }

    /// Removes the last element.
    pub fn pop_last(self) -> (u: Update<E>)
        ensures
            u.spec_doc() == op_doc("$pop"@, self.spec_path(), BsonV::Int32(1)),
            u.spec_error() is None,
    {
        self.update_op("$pop", Ok(Bson::Int32(1)))
    }

    /// Removes the first element.
    pub fn pop_first(self) -> (u: Update<E>)
        ensures
            u.spec_doc() == op_doc("$pop"@, self.spec_path(), BsonV::Int32(-1i32)),
            u.spec_error() is None,
    {
        self.update_op("$pop", Ok(Bson::Int32(-1)))
    }
}

impl<E> VersionField<E> {
    /// Counts one more write: `{ $inc: { path: 1 } }`.
    pub fn bump(self) -> (u: Update<E>)
        ensures
            u.spec_doc() == op_doc("$inc"@, self.spec_path(), BsonV::Int64(1)),
            u.spec_error() is None,
    {
        Update::field_op("$inc", self.path(), Ok(Bson::Int64(1)))
    }
}

/// Writing a path that an update already writes, through the same operator,
/// is noted as a repeat.
pub proof fn lemma_repeated_path_is_noted(
    doc: DocV,
    op: Seq<char>,
    existing: DocV,
    path: Seq<char>,
    value: BsonV,
)
    requires
        doc_get(doc, op) == Some(BsonV::Doc(existing)),
        has_key(existing, path),
    ensures
        merge_updates(doc, op_doc(op, path, value)).1 == Some((path, op)),
{
    reveal_with_fuel(merge_paths, 2);
    reveal_with_fuel(merge_updates, 2);
    let other = op_doc(op, path, value);
    assert(other.drop_last() =~= Seq::<(Seq<char>, BsonV)>::empty());
    let inc = seq![(path, value)];
    assert(inc.drop_last() =~= Seq::<(Seq<char>, BsonV)>::empty());
    assert(merge_paths(existing, inc, op, None) == (doc_insert(existing, path, value), Some((path, op))));
}

/// Writes through one operator to two different paths merge into one
/// operator document, with nothing refused.
pub proof fn lemma_distinct_paths_merge(op: Seq<char>, p: Seq<char>, v: BsonV, q: Seq<char>, w: BsonV)
    requires
        p != q,
    ensures
        merge_updates(op_doc(op, p, v), op_doc(op, q, w)) == (
            seq![(op, BsonV::Doc(seq![(p, v), (q, w)]))],
            None::<(Seq<char>, Seq<char>)>,
        ),
{
    reveal_with_fuel(merge_paths, 2);
    reveal_with_fuel(merge_updates, 2);
    let a = op_doc(op, p, v);
    let b = op_doc(op, q, w);
    assert(b.drop_last() =~= Seq::<(Seq<char>, BsonV)>::empty());
    assert(is_first_key(a, op, 0));
    lemma_first_key_unique(a, op, 0);
    let inc = seq![(q, w)];
    assert(inc.drop_last() =~= Seq::<(Seq<char>, BsonV)>::empty());
    let ex = seq![(p, v)];
    assert(!has_key(ex, q));
    assert(merge_paths(ex, inc, op, None) == (ex.push((q, w)), None::<(Seq<char>, Seq<char>)>));
    assert(ex.push((q, w)) =~= seq![(p, v), (q, w)]);
    assert(a.update(0, (op, BsonV::Doc(seq![(p, v), (q, w)]))) =~= seq![(op, BsonV::Doc(seq![(p, v), (q, w)]))]);
}

} // verus!

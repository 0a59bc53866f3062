//! Typed sort orders.
use vstd::prelude::*;

use core::marker::PhantomData;

use crate::bson::{
    Bson, BsonV, DocV, Document, bson_view, doc_insert, doc_remove, has_key, lemma_entries_view,
};
use crate::field::{Field, Filterable};
use crate::text::owned;

verus! {

/// A sort order over entity `E`: paths with directions, most significant first.
#[derive(Debug)]
pub struct Sort<E> {
    doc: Document,
    _marker: PhantomData<E>,
}

/// `d` followed by the keys of `next`, each moved to the end with its new
/// direction.
pub open spec fn sort_then(d: DocV, next: DocV) -> DocV
    decreases next.len(),
{
    if next.len() == 0 {
        d
    } else {
        let before = sort_then(d, next.drop_last());
        let (k, v) = next.last();
        doc_insert(doc_remove(before, k), k, v)
    }
}

impl<E> Sort<E> {
    pub closed spec fn spec_doc(&self) -> DocV {
        self.doc@
    }

    /// Sorts by one path: `{ path: direction }`.
    pub fn single(path: &str, direction: i32) -> (s: Self)
        ensures
            s.spec_doc() == seq![(path@, BsonV::Int32(direction))],
    {
        let mut doc = Document::new();
        doc.insert(owned(path), Bson::Int32(direction));
        assert(doc@ =~= seq![(path@, BsonV::Int32(direction))]);
        Sort { doc, _marker: PhantomData }
    }

    /// Breaks ties by `next`; a path of `next` already in the order moves to
    /// its place in `next`.
    pub fn then(self, next: Sort<E>) -> (s: Sort<E>)
        ensures
            s.spec_doc() == sort_then(self.spec_doc(), next.spec_doc()),
    {
        let ghost start = self.doc@;
        let ghost all = next.doc@;
        let mut doc = self.doc;
        let mut rest = next.doc.entries;
        proof {
            lemma_entries_view(rest@);
        }
        let ghost n: int = rest@.len() as int;
        while rest.len() > 0
            invariant
                n == all.len(),
                rest@.len() <= n,
                forall|j: int|
                    0 <= j < rest@.len() ==> (#[trigger] rest@[j].0@, bson_view(rest@[j].1))
                        == all[n - rest@.len() + j],
                doc@ == sort_then(start, all.take(n - rest@.len())),
            decreases rest@.len(),
        {
            let ghost i: int = n - rest@.len();
            let ghost before = rest@;
            assert((before[0].0@, bson_view(before[0].1)) == all[i]);
            let (key, value) = rest.remove(0);
            assert(all.take(i + 1).drop_last() == all.take(i));
            doc.remove(key.as_str());
            doc.insert(key, value);
        }
        assert(all.take(n) == all);
        Sort { doc, _marker: PhantomData }
    }

    /// A copy of the order.
    pub fn duplicate(&self) -> (s: Self)
        ensures
            s.spec_doc() == self.spec_doc(),
    {
        Sort { doc: self.doc.duplicate(), _marker: PhantomData }
    }

    /// The sort document.
    pub fn into_document(self) -> (d: Document)
        ensures
            d@ == self.spec_doc(),
    {
        self.doc
    }
}

impl<E, T, C: Filterable, X> Field<E, T, C, X> {
    /// Ascending on this field.
    pub fn asc(self) -> (s: Sort<E>)
        ensures
            s.spec_doc() == seq![(self.spec_path(), BsonV::Int32(1))],
    {
        Sort::single(self.path(), 1)
    }

    /// Descending on this field.
    pub fn desc(self) -> (s: Sort<E>)
        ensures
            s.spec_doc() == seq![(self.spec_path(), BsonV::Int32(-1i32))],
    {
        Sort::single(self.path(), -1)
    }
}

/// Breaking ties by one path puts that path last, after the rest of the order
/// with the path taken out (for an order without repeated paths).
pub proof fn lemma_then_moves_to_end(d: DocV, k: Seq<char>, v: BsonV)
    requires
        crate::bson::distinct_keys(d),
    ensures
        sort_then(d, seq![(k, v)]) == doc_remove(d, k).push((k, v)),
{
    reveal_with_fuel(sort_then, 2);
    assert(seq![(k, v)].drop_last() =~= Seq::<(Seq<char>, BsonV)>::empty());
    let r = doc_remove(d, k);
    lemma_remove_takes_key_out(d, k);
}

/// After `remove(k)` a document with distinct keys has no `k`.
pub proof fn lemma_remove_takes_key_out(d: DocV, k: Seq<char>)
    requires
        crate::bson::distinct_keys(d),
    ensures
        !has_key(doc_remove(d, k), k),
{
    if has_key(d, k) {
        let w = choose|j: int| 0 <= j < d.len() && d[j].0 == k;
        crate::bson::lemma_first_key(d, k, w);
        let f = crate::bson::first_key(d, k);
        let r = d.remove(f);
        if has_key(r, k) {
            let j = choose|j: int| 0 <= j < r.len() && r[j].0 == k;
            if j < f {
                assert(d[j].0 == k);
            } else {
                assert(d[j + 1].0 == k);
            }
        }
    }
}

} // verus!

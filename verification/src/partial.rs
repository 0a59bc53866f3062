//! What is known of a multi-document write that failed part-way.
use vstd::prelude::*;

use std::collections::HashSet;

use crate::doc::Doc;
use crate::entity::Entity;
use crate::error::Error;

verus! {

/// Report the outcome of a multi-document write as a whole.
pub struct Summary;

/// Report which documents of a multi-document write went in.
pub struct Partial;

/// How much a failed multi-document write tells: which operations were
/// applied, or nothing.
#[derive(Debug, PartialEq, Eq)]
pub enum BulkClass {
    PerOp { applied: Vec<usize> },
    Opaque,
}

/// The smallest element of a non-empty sequence.
pub open spec fn seq_min(s: Seq<usize>) -> usize
    decreases s.len(),
{
    if s.len() <= 1 {
        s[0]
    } else {
        let m = seq_min(s.drop_last());
        if s.last() < m {
            s.last()
        } else {
            m
        }
    }
}

/// `0, 1, ..., n - 1` without the elements of `failed`.
pub open spec fn complement(n: nat, failed: Seq<usize>) -> Seq<usize>
    decreases n,
{
    if n == 0 {
        Seq::empty()
    } else {
        let before = complement((n - 1) as nat, failed);
        if failed.contains((n - 1) as usize) {
            before
        } else {
            before.push((n - 1) as usize)
        }
    }
}

pub open spec fn upto(n: nat) -> Seq<usize> {
    Seq::new(n, |i: int| i as usize)
}

/// What a failed write of `ops_len` operations applied, given the indices of
/// its write errors: nothing is known when the failure wraps another error or
/// names no failing operation; an ordered write applied everything before
/// its first failure; an unordered one everything that did not fail.
pub open spec fn classify_spec(ordered: bool, ops_len: nat, failed: Seq<usize>, has_source: bool) -> Option<Seq<usize>> {
    if has_source || failed.len() == 0 {
        None
    } else if ordered {
        Some(upto(seq_min(failed) as nat))
    } else {
        Some(complement(ops_len, failed))
    }
}

pub proof fn lemma_seq_min(s: Seq<usize>)
    requires
        s.len() > 0,
    ensures
        s.contains(seq_min(s)),
        forall|i: int| 0 <= i < s.len() ==> seq_min(s) <= #[trigger] s[i],
    decreases s.len(),
{
    if s.len() > 1 {
        lemma_seq_min(s.drop_last());
        let m = seq_min(s.drop_last());
        let w = choose|i: int| 0 <= i < s.drop_last().len() && s.drop_last()[i] == m;
        assert(s[w] == m);
        if s.last() < m {
            assert(s[s.len() - 1] == s.last());
        }
        assert forall|i: int| 0 <= i < s.len() implies seq_min(s) <= #[trigger] s[i] by {
            if i < s.len() - 1 {
                assert(s.drop_last()[i] == s[i]);
            }
        }
    } else {
        assert(s[0] == seq_min(s));
    }
}

/// Classifies a failed multi-document write.
pub fn classify_bulk_failure(ordered: bool, ops_len: usize, write_error_indices: &Vec<usize>, has_source: bool) -> (c: BulkClass)
    ensures
        match classify_spec(ordered, ops_len as nat, write_error_indices@, has_source) {
            Some(applied) => c matches BulkClass::PerOp { applied: a } && a@ == applied,
            None => c is Opaque,
        },
{
    if has_source || write_error_indices.len() == 0 {
        return BulkClass::Opaque;
    }
    let ghost failed = write_error_indices@;
    let applied = if ordered {
        let mut first = write_error_indices[0];
        let mut i: usize = 1;
        assert(failed.take(1).drop_last() =~= Seq::<usize>::empty());
        assert(seq_min(failed.take(1)) == failed[0]);
        while i < write_error_indices.len()
            invariant
                1 <= i <= failed.len(),
                failed == write_error_indices@,
                first == seq_min(failed.take(i as int)),
            decreases write_error_indices.len() - i,
        {
            assert(failed.take(i + 1).drop_last() == failed.take(i as int));
            if write_error_indices[i] < first {
                first = write_error_indices[i];
            }
            i = i + 1;
        }
        assert(failed.take(i as int) == failed);
        let mut applied: Vec<usize> = Vec::new();
        let mut k: usize = 0;
        while k < first
            invariant
                k <= first,
                applied@ == upto(k as nat),
            decreases first - k,
        {
            applied.push(k);
            k = k + 1;
            assert(applied@ =~= upto(k as nat));
        }
        applied
    } else {
        let mut failed_set: HashSet<usize> = HashSet::new();
        let mut j: usize = 0;
        while j < write_error_indices.len()
            invariant
                j <= failed.len(),
                failed == write_error_indices@,
                forall|x: usize| #[trigger] failed_set@.contains(x) <==> failed.take(j as int).contains(x),
            decreases write_error_indices.len() - j,
        {
            proof {
                broadcast use vstd::std_specs::hash::group_hash_axioms;
            }
            let x = write_error_indices[j];
            failed_set.insert(x);
            assert(failed.take(j + 1) =~= failed.take(j as int).push(x));
            assert forall|y: usize| #[trigger] failed_set@.contains(y) <==> failed.take(j + 1).contains(y) by {
                let t = failed.take(j as int);
                if t.push(x).contains(y) && y != x {
                    let w = choose|w: int| 0 <= w < t.push(x).len() && t.push(x)[w] == y;
                    assert(t[w] == y);
                }
                if t.contains(y) {
                    let w = choose|w: int| 0 <= w < t.len() && t[w] == y;
                    assert(t.push(x)[w] == y);
                }
                if y == x {
                    assert(t.push(x)[t.len() as int] == y);
                }
            }
            j = j + 1;
        }
        assert(failed.take(j as int) =~= failed);
        let mut applied: Vec<usize> = Vec::new();
        let mut k: usize = 0;
        while k < ops_len
            invariant
                k <= ops_len,
                failed == write_error_indices@,
                applied@ == complement(k as nat, failed),
                forall|x: usize| #[trigger] failed_set@.contains(x) <==> failed.contains(x),
            decreases ops_len - k,
        {
            proof {
                broadcast use vstd::std_specs::hash::group_hash_axioms;
            }
            let hit = failed_set.contains(&k);
            assert(hit == failed.contains(k));
            if !hit {
                applied.push(k);
            }
            k = k + 1;
        }
        applied
    };
    BulkClass::PerOp { applied }
}

/// An ordered write applied exactly the operations before its first failure.
pub proof fn lemma_ordered_prefix(ops_len: nat, failed: Seq<usize>, i: usize)
    requires
        failed.len() > 0,
    ensures
        classify_spec(true, ops_len, failed, false) matches Some(applied) && (applied.contains(i)
            <==> (i as int) < (seq_min(failed) as int)),
        forall|j: int| 0 <= j < failed.len() ==> !classify_spec(true, ops_len, failed, false)->0.contains(#[trigger] failed[j]),
{
    lemma_seq_min(failed);
    let applied = upto(seq_min(failed) as nat);
    if (i as int) < (seq_min(failed) as int) {
        assert(applied[i as int] == i);
    }
}

/// An unordered write applied exactly the operations that did not fail.
pub proof fn lemma_unordered_complement(ops_len: nat, failed: Seq<usize>, i: usize)
    requires
        failed.len() > 0,
    ensures
        classify_spec(false, ops_len, failed, false) matches Some(applied) && (applied.contains(i)
            <==> (i as int) < ops_len && !failed.contains(i)),
{
    lemma_complement(ops_len, failed, i);
}

pub proof fn lemma_complement(n: nat, failed: Seq<usize>, i: usize)
    ensures
        complement(n, failed).contains(i) <==> (i as int) < n && !failed.contains(i),
    decreases n,
{
    if n > 0 {
        lemma_complement((n - 1) as nat, failed, i);
        let before = complement((n - 1) as nat, failed);
        if !failed.contains((n - 1) as usize) {
            let after = before.push((n - 1) as usize);
            assert(after[after.len() - 1] == (n - 1) as usize);
            if before.contains(i) {
                let w = choose|w: int| 0 <= w < before.len() && before[w] == i;
                assert(after[w] == i);
            }
            if after.contains(i) && i != (n - 1) as usize {
                let w = choose|w: int| 0 <= w < after.len() && after[w] == i;
                assert(w < before.len());
                assert(before[w] == i);
            }
        }
    }
}

/// A multi-document insert that failed, with its documents sorted by what is
/// known of them: inserted, rejected, or unknown.
pub struct PartialFailure<E: Entity> {
    pub error: Error,
    pub inserted: Vec<(usize, Doc<E>)>,
    pub rejected: Vec<(usize, E)>,
    pub unknown: Vec<(usize, E)>,
}

/// The positions of `docs` whose index is (or is not) among `applied`.
pub open spec fn select<T>(docs: Seq<(usize, T)>, applied: Seq<usize>, keep: bool) -> Seq<usize>
    decreases docs.len(),
{
    if docs.len() == 0 {
        Seq::empty()
    } else {
        let before = select(docs.drop_last(), applied, keep);
        if applied.contains(docs.last().0) == keep {
            before.push(docs.last().0)
        } else {
            before
        }
    }
}

/// The entries of `docs` whose index is (or is not) among `applied`, in order.
pub open spec fn chosen<T>(docs: Seq<(usize, T)>, applied: Seq<usize>, keep: bool) -> Seq<(usize, T)>
    decreases docs.len(),
{
    if docs.len() == 0 {
        Seq::empty()
    } else {
        let before = chosen(docs.drop_last(), applied, keep);
        if applied.contains(docs.last().0) == keep {
            before.push(docs.last())
        } else {
            before
        }
    }
}

/// Each numbered document with its body in place of the document.
pub open spec fn bodies<E: Entity>(docs: Seq<(usize, Doc<E>)>) -> Seq<(usize, E)> {
    docs.map_values(|e: (usize, Doc<E>)| (e.0, e.1.spec_body()))
}

pub open spec fn indices<T>(s: Seq<(usize, T)>) -> Seq<usize> {
    s.map_values(|e: (usize, T)| e.0)
}

impl<E: Entity> PartialFailure<E> {
    /// Sorts the documents of a failed insert: with `applied` known, the
    /// applied ones were inserted and the rest rejected; otherwise all are
    /// unknown.  Each document keeps its position.
    pub fn split(error: Error, docs: Vec<(usize, Doc<E>)>, applied: Option<&Vec<usize>>) -> (f: Self)
        ensures
            f.error == error,
            match applied {
                Some(a) => {
                    &&& f.inserted@ == chosen(docs@, a@, true)
                    &&& f.rejected@ == bodies(chosen(docs@, a@, false))
                    &&& indices(f.inserted@) == select(docs@, a@, true)
                    &&& indices(f.rejected@) == select(docs@, a@, false)
                    &&& f.unknown@.len() == 0
                    &&& forall|i: int| 0 <= i < f.inserted@.len() ==> exists|j: int| 0 <= j < docs@.len() && #[trigger] f.inserted@[i] == docs@[j]
                },
                None => {
                    &&& f.inserted@.len() == 0
                    &&& f.rejected@.len() == 0
                    &&& indices(f.unknown@) == indices(docs@)
                    &&& forall|i: int| 0 <= i < docs@.len() ==> #[trigger] f.unknown@[i].1 == docs@[i].1.spec_body()
                },
            },
    {
        let ghost all = docs@;
        let n = docs.len();
        let mut rest = docs;
        let mut inserted: Vec<(usize, Doc<E>)> = Vec::new();
        let mut rejected: Vec<(usize, E)> = Vec::new();
        let mut unknown: Vec<(usize, E)> = Vec::new();
        while rest.len() > 0
            invariant
                rest@.len() <= n,
                n == all.len(),
                forall|j: int| 0 <= j < rest@.len() ==> #[trigger] rest@[j] == all[n - rest@.len() + j],
                match applied {
                    Some(a) => {
                        &&& inserted@ == chosen(all.take(n - rest@.len()), a@, true)
                        &&& rejected@ == bodies(chosen(all.take(n - rest@.len()), a@, false))
                        &&& indices(inserted@) == select(all.take(n - rest@.len()), a@, true)
                        &&& indices(rejected@) == select(all.take(n - rest@.len()), a@, false)
                        &&& unknown@.len() == 0
                        &&& forall|i: int| 0 <= i < inserted@.len() ==> exists|j: int| 0 <= j < all.len() && #[trigger] inserted@[i] == all[j]
                    },
                    None => {
                        &&& inserted@.len() == 0
                        &&& rejected@.len() == 0
                        &&& indices(unknown@) == indices(all.take(n - rest@.len()))
                        &&& forall|i: int| 0 <= i < unknown@.len() ==> #[trigger] unknown@[i].1 == all[i].1.spec_body()
                    },
                },
            decreases rest@.len(),
        {
            let ghost idx: int = n - rest@.len();
            let ghost before = rest@;
            assert(before[0] == all[idx]);
            let (i, doc) = rest.remove(0);
            assert(all.take(idx + 1).drop_last() == all.take(idx));
            assert(all.take(idx + 1).last() == (i, doc));
            match applied {
                Some(a) => {
                    let mut hit = false;
                    let mut j: usize = 0;
                    while j < a.len()
                        invariant
                            j <= a@.len(),
                            hit == exists|t: int| 0 <= t < j && a@[t] == i,
                        decreases a.len() - j,
                    {
                        if a[j] == i {
                            hit = true;
                        }
                        j = j + 1;
                    }
                    assert(hit == a@.contains(i));
                    if hit {
                        let ghost i0 = inserted@;
                        inserted.push((i, doc));
                        assert(indices(inserted@) =~= indices(i0).push(i));
                        assert(inserted@[inserted@.len() - 1] == all[idx]);
                    } else {
                        let ghost r0 = rejected@;
                        let ghost c0 = chosen(all.take(idx), a@, false);
                        rejected.push((i, doc.into_body()));
                        assert(indices(rejected@) =~= indices(r0).push(i));
                        assert(bodies(c0.push((i, doc))) =~= bodies(c0).push((i, doc.spec_body())));
                    }
                },
                None => {
                    let ghost u0 = unknown@;
                    unknown.push((i, doc.into_body()));
                    assert(indices(unknown@) =~= indices(u0).push(i));
                    assert(indices(all.take(idx + 1)) =~= indices(all.take(idx)).push(i));
                },
            }
        }
        assert(all.take(n as int) == all);
        PartialFailure { error, inserted, rejected, unknown }
    }
}

/// Numbers the documents by their position.
pub fn indexed<E: Entity>(docs: Vec<Doc<E>>) -> (r: Vec<(usize, Doc<E>)>)
    ensures
        r@.len() == docs@.len(),
        forall|i: int| 0 <= i < docs@.len() ==> #[trigger] r@[i] == (i as usize, docs@[i]),
{
    let ghost all = docs@;
    let n = docs.len();
    let mut rest = docs;
    let mut out: Vec<(usize, Doc<E>)> = Vec::new();
    while rest.len() > 0
        invariant
            rest@.len() <= n,
            n == all.len(),
            forall|j: int| 0 <= j < rest@.len() ==> #[trigger] rest@[j] == all[n - rest@.len() + j],
            out@.len() == n - rest@.len(),
            forall|i: int| 0 <= i < out@.len() ==> #[trigger] out@[i] == (i as usize, all[i]),
        decreases rest@.len(),
    {
        let ghost before = rest@;
        let i = n - rest.len();
        assert(before[0] == all[i as int]);
        let d = rest.remove(0);
        out.push((i, d));
    }
    out
}

/// Sorting documents by a known outcome loses none and invents none: every
/// document lands on exactly one side (inserted when its position was
/// applied, rejected otherwise), and each side holds only documents of its
/// kind.
pub proof fn lemma_split_partitions<T>(docs: Seq<(usize, T)>, applied: Seq<usize>)
    ensures
        select(docs, applied, true).len() + select(docs, applied, false).len() == docs.len(),
        forall|x: usize| #[trigger] select(docs, applied, true).contains(x) ==> indices(docs).contains(x) && applied.contains(x),
        forall|x: usize| #[trigger] select(docs, applied, false).contains(x) ==> indices(docs).contains(x) && !applied.contains(x),
        forall|j: int| 0 <= j < docs.len() ==> #[trigger] select(docs, applied, applied.contains(docs[j].0)).contains(docs[j].0),
    decreases docs.len(),
{
    if docs.len() > 0 {
        let before = docs.drop_last();
        lemma_split_partitions(before, applied);
        let last = docs.last();
        assert(indices(docs) =~= indices(before).push(last.0));
        assert forall|x: usize| #[trigger] select(docs, applied, true).contains(x) implies indices(docs).contains(x) && applied.contains(x) by {
            if select(before, applied, true).contains(x) {
                let k = choose|k: int| 0 <= k < indices(before).len() && indices(before)[k] == x;
                assert(indices(docs)[k] == x);
            } else {
                assert(x == last.0);
                assert(indices(docs)[docs.len() - 1] == x);
            }
        }
        assert forall|x: usize| #[trigger] select(docs, applied, false).contains(x) implies indices(docs).contains(x) && !applied.contains(x) by {
            if select(before, applied, false).contains(x) {
                let k = choose|k: int| 0 <= k < indices(before).len() && indices(before)[k] == x;
                assert(indices(docs)[k] == x);
            } else {
                assert(x == last.0);
                assert(indices(docs)[docs.len() - 1] == x);
            }
        }
        assert forall|j: int| 0 <= j < docs.len() implies #[trigger] select(docs, applied, applied.contains(docs[j].0)).contains(docs[j].0) by {
            let keep = applied.contains(docs[j].0);
            if j < docs.len() - 1 {
                assert(before[j] == docs[j]);
                assert(select(before, applied, keep).contains(before[j].0));
                let k = choose|k: int| 0 <= k < select(before, applied, keep).len() && select(before, applied, keep)[k] == docs[j].0;
                if applied.contains(last.0) == keep {
                    assert(select(docs, applied, keep)[k] == docs[j].0);
                }
            } else {
                assert(docs[j] == last);
                let s = select(docs, applied, keep);
                assert(s[s.len() - 1] == docs[j].0);
            }
        }
    }
}

} // verus!

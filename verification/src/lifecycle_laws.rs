//! What the index diff says of each declared and each existing index.

use vstd::prelude::*;

use crate::lifecycle::{
    bind_by_name, bind_by_structure, diff_spec, lemma_existing_named_all, existing_named, declared_named, first_where, missing_external,
    is_nan, key_eq, keys_eq, name_pred, normal_index, text_eq, value_eq, Number, NormalCollationV, NormalKeyV, structure_pred, structures_match_spec, unbound_existing, NormalIndexV,
};
use crate::bson::{doc_get, first_key, is_first_key, lemma_first_key_unique, BsonV, DocV};

verus! {

/// No two entries carry the same name.
#[verifier::opaque]
pub open spec fn names_distinct(s: Seq<(Seq<char>, NormalIndexV)>) -> bool {
    forall|i: int, j: int| 0 <= i < s.len() && 0 <= j < s.len() && i != j ==> #[trigger] s[i].0 != #[trigger] s[j].0
}

proof fn lemma_first_where(n: int, p: spec_fn(int) -> bool)
    ensures
        first_where(n, p) >= 0 ==> first_where(n, p) < n && p(first_where(n, p)),
        first_where(n, p) < 0 ==> first_where(n, p) == -1 && forall|j: int| 0 <= j < n ==> !#[trigger] p(j),
    decreases n,
{
    if n > 0 {
        lemma_first_where(n - 1, p);
    }
}

/// Which existing indexes binding by name used, which declared indexes it
/// found mismatched, and which it left unbound.
pub open spec fn used_by_name(decl: Seq<(Seq<char>, NormalIndexV)>, ex: Seq<(Seq<char>, NormalIndexV)>, used: Seq<bool>) -> bool {
    &&& used.len() == ex.len()
    &&& forall|j: int| 0 <= j < ex.len() ==> (#[trigger] used[j] <==> exists|k: int| 0 <= k < decl.len() && decl[k].0 == ex[j].0)
}

pub open spec fn mismatched_by_name(decl: Seq<(Seq<char>, NormalIndexV)>, ex: Seq<(Seq<char>, NormalIndexV)>, m: Seq<Seq<char>>) -> bool {
    forall|s: Seq<char>| #[trigger] m.contains(s) <==> exists|k: int, j: int| 0 <= k < decl.len() && 0 <= j < ex.len()
        && decl[k].0 == s && ex[j].0 == s && !structures_match_spec(decl[k].1, ex[j].1, false)
}

/// No existing index carries the name `name`.
#[verifier::opaque]
pub open spec fn unnamed_in(ex: Seq<(Seq<char>, NormalIndexV)>, name: Seq<char>) -> bool {
    forall|j: int| 0 <= j < ex.len() ==> #[trigger] ex[j].0 != name
}

/// `e` is an entry of `s`.
#[verifier::opaque]
pub open spec fn listed(s: Seq<(Seq<char>, NormalIndexV)>, e: (Seq<char>, NormalIndexV)) -> bool {
    exists|k: int| 0 <= k < s.len() && s[k] == e
}

pub open spec fn unbound_by_name(decl: Seq<(Seq<char>, NormalIndexV)>, ex: Seq<(Seq<char>, NormalIndexV)>, u: Seq<(Seq<char>, NormalIndexV)>) -> bool {
    &&& forall|a: int| #![trigger u[a]] 0 <= a < u.len() ==> listed(decl, u[a]) && unnamed_in(ex, u[a].0)
    &&& forall|k: int| #![trigger decl[k]] 0 <= k < decl.len() && unnamed_in(ex, decl[k].0) ==> listed(u, decl[k])
    &&& names_distinct(u)
}

proof fn lemma_prefix_distinct(decl: Seq<(Seq<char>, NormalIndexV)>)
    requires
        names_distinct(decl),
        decl.len() > 0,
    ensures
        names_distinct(decl.drop_last()),
        forall|k: int| 0 <= k < decl.len() - 1 ==> #[trigger] decl.drop_last()[k].0 != decl.last().0,
{
    reveal(names_distinct);
    let pre = decl.drop_last();
    assert forall|i: int, j: int| 0 <= i < pre.len() && 0 <= j < pre.len() && i != j implies #[trigger] pre[i].0 != #[trigger] pre[j].0 by {
        assert(pre[i] == decl[i] && pre[j] == decl[j]);
    }
    assert forall|k: int| 0 <= k < decl.len() - 1 implies #[trigger] pre[k].0 != decl.last().0 by {
        assert(pre[k] == decl[k]);
    }
}

proof fn lemma_step_used(decl: Seq<(Seq<char>, NormalIndexV)>, ex: Seq<(Seq<char>, NormalIndexV)>)
    requires
        names_distinct(decl),
        names_distinct(ex),
        decl.len() > 0,
        used_by_name(decl.drop_last(), ex, bind_by_name(decl.drop_last(), ex).used),
    ensures
        used_by_name(decl, ex, bind_by_name(decl, ex).used),
        first_where(ex.len() as int, name_pred(bind_by_name(decl.drop_last(), ex).used, ex, decl.last().0)) < 0
            ==> unnamed_in(ex, decl.last().0),
{
    reveal(names_distinct);
    reveal(unnamed_in);
    let pre = decl.drop_last();
    let s0 = bind_by_name(pre, ex);
    let st = bind_by_name(decl, ex);
    let name = decl.last().0;
    let n = decl.len() - 1;
    assert(decl[n] == decl.last());
    let p = name_pred(s0.used, ex, name);
    lemma_first_where(ex.len() as int, p);
    lemma_prefix_distinct(decl);
    let j0 = first_where(ex.len() as int, p);
    if j0 >= 0 {
        assert(ex[j0].0 == name);
        assert(st.used == s0.used.update(j0, true));
    } else {
        assert(st.used == s0.used);
        assert forall|j: int| 0 <= j < ex.len() implies #[trigger] ex[j].0 != name by {
            if ex[j].0 == name {
                assert(!p(j));
                assert(s0.used[j]);
                let k2 = choose|k2: int| 0 <= k2 < pre.len() && pre[k2].0 == ex[j].0;
                assert(pre[k2].0 == name);
            }
        }
    }
    assert forall|j: int| 0 <= j < ex.len() implies (#[trigger] st.used[j] <==> exists|k: int| 0 <= k < decl.len() && decl[k].0 == ex[j].0) by {
        if j0 >= 0 && j == j0 {
            assert(decl[n].0 == ex[j].0);
        } else {
            assert(st.used[j] == s0.used[j]);
            if exists|k: int| 0 <= k < decl.len() && decl[k].0 == ex[j].0 {
                let k = choose|k: int| 0 <= k < decl.len() && decl[k].0 == ex[j].0;
                if k == n {
                    if j0 >= 0 {
                        assert(ex[j].0 == ex[j0].0);
                    } else {
                        assert(ex[j].0 != name);
                    }
                } else {
                    assert(pre[k] == decl[k]);
                }
            }
            if s0.used[j] {
                let k = choose|k: int| 0 <= k < pre.len() && pre[k].0 == ex[j].0;
                assert(decl[k] == pre[k]);
            }
        }
    }
}

proof fn lemma_step_mismatched(decl: Seq<(Seq<char>, NormalIndexV)>, ex: Seq<(Seq<char>, NormalIndexV)>)
    requires
        names_distinct(decl),
        names_distinct(ex),
        decl.len() > 0,
        used_by_name(decl.drop_last(), ex, bind_by_name(decl.drop_last(), ex).used),
        mismatched_by_name(decl.drop_last(), ex, bind_by_name(decl.drop_last(), ex).mismatched),
        first_where(ex.len() as int, name_pred(bind_by_name(decl.drop_last(), ex).used, ex, decl.last().0)) < 0
            ==> unnamed_in(ex, decl.last().0),
    ensures
        mismatched_by_name(decl, ex, bind_by_name(decl, ex).mismatched),
{
    reveal(names_distinct);
    reveal(unnamed_in);
    let pre = decl.drop_last();
    let s0 = bind_by_name(pre, ex);
    let st = bind_by_name(decl, ex);
    let (name, normal) = decl.last();
    let n = decl.len() - 1;
    assert(decl[n] == decl.last());
    let p = name_pred(s0.used, ex, name);
    lemma_first_where(ex.len() as int, p);
    lemma_prefix_distinct(decl);
    let j0 = first_where(ex.len() as int, p);
    let mismatch = j0 >= 0 && !structures_match_spec(normal, ex[j0].1, false);
    if j0 >= 0 {
        assert(ex[j0].0 == name);
    }
    assert(st.mismatched == if mismatch { s0.mismatched.push(name) } else { s0.mismatched });
    assert forall|s: Seq<char>| #[trigger] st.mismatched.contains(s) <==> exists|k: int, j: int| 0 <= k < decl.len() && 0 <= j < ex.len()
        && decl[k].0 == s && ex[j].0 == s && !structures_match_spec(decl[k].1, ex[j].1, false) by {
        if exists|k: int, j: int| 0 <= k < decl.len() && 0 <= j < ex.len()
            && decl[k].0 == s && ex[j].0 == s && !structures_match_spec(decl[k].1, ex[j].1, false) {
            let (k, j) = choose|k: int, j: int| 0 <= k < decl.len() && 0 <= j < ex.len()
                && decl[k].0 == s && ex[j].0 == s && !structures_match_spec(decl[k].1, ex[j].1, false);
            if k == n {
                if j0 < 0 {
                    assert(ex[j].0 != name);
                }
                assert(j == j0);
                assert(mismatch);
                assert(st.mismatched[st.mismatched.len() - 1] == s);
            } else {
                assert(pre[k] == decl[k]);
                assert(s0.mismatched.contains(s));
                let w = choose|w: int| 0 <= w < s0.mismatched.len() && s0.mismatched[w] == s;
                assert(st.mismatched[w] == s);
            }
        }
        if st.mismatched.contains(s) {
            let w = choose|w: int| 0 <= w < st.mismatched.len() && st.mismatched[w] == s;
            if w < s0.mismatched.len() {
                assert(s0.mismatched[w] == s);
                assert(s0.mismatched.contains(s));
                let (k, j) = choose|k: int, j: int| 0 <= k < pre.len() && 0 <= j < ex.len()
                    && pre[k].0 == s && ex[j].0 == s && !structures_match_spec(pre[k].1, ex[j].1, false);
                assert(decl[k] == pre[k]);
            } else {
                assert(mismatch);
                assert(s == name);
                assert(decl[n].1 == normal);
            }
        }
    }
}

proof fn lemma_step_unbound_found(decl: Seq<(Seq<char>, NormalIndexV)>, ex: Seq<(Seq<char>, NormalIndexV)>)
    requires
        names_distinct(decl),
        decl.len() > 0,
        unbound_by_name(decl.drop_last(), ex, bind_by_name(decl.drop_last(), ex).unbound),
        first_where(ex.len() as int, name_pred(bind_by_name(decl.drop_last(), ex).used, ex, decl.last().0)) >= 0,
    ensures
        unbound_by_name(decl, ex, bind_by_name(decl, ex).unbound),
{
    let pre = decl.drop_last();
    let s0 = bind_by_name(pre, ex);
    let st = bind_by_name(decl, ex);
    let name = decl.last().0;
    let n = decl.len() - 1;
    assert(decl[n] == decl.last());
    let p = name_pred(s0.used, ex, name);
    lemma_first_where(ex.len() as int, p);
    lemma_prefix_distinct(decl);
    let j0 = first_where(ex.len() as int, p);
        assert(ex[j0].0 == name);
        assert(st.unbound == s0.unbound);
        assert forall|k: int| #![trigger decl[k]] 0 <= k < decl.len() && unnamed_in(ex, decl[k].0)
            implies listed(st.unbound, decl[k]) by {
            if k == n {
                assert(ex[j0].0 == decl[k].0);
                reveal(unnamed_in);
            } else {
                assert(pre[k] == decl[k]);
            }
        }
        assert forall|a: int| #![trigger st.unbound[a]] 0 <= a < st.unbound.len()
            implies listed(decl, st.unbound[a]) && unnamed_in(ex, st.unbound[a].0) by {
            assert(s0.unbound[a] == st.unbound[a]);
            reveal(listed);
            let k = choose|k: int| 0 <= k < pre.len() && pre[k] == s0.unbound[a];
            assert(decl[k] == pre[k]);
        }
}

#[verifier::rlimit(100)]
proof fn lemma_step_unbound_missing(decl: Seq<(Seq<char>, NormalIndexV)>, ex: Seq<(Seq<char>, NormalIndexV)>)
    requires
        names_distinct(decl),
        decl.len() > 0,
        unbound_by_name(decl.drop_last(), ex, bind_by_name(decl.drop_last(), ex).unbound),
        first_where(ex.len() as int, name_pred(bind_by_name(decl.drop_last(), ex).used, ex, decl.last().0)) < 0,
        unnamed_in(ex, decl.last().0),
    ensures
        unbound_by_name(decl, ex, bind_by_name(decl, ex).unbound),
{
    reveal(names_distinct);
    let pre = decl.drop_last();
    let s0 = bind_by_name(pre, ex);
    let st = bind_by_name(decl, ex);
    let name = decl.last().0;
    let n = decl.len() - 1;
    assert(decl[n] == decl.last());
    let p = name_pred(s0.used, ex, name);
    lemma_first_where(ex.len() as int, p);
    lemma_prefix_distinct(decl);
    let j0 = first_where(ex.len() as int, p);
        assert(st.unbound == s0.unbound.push(decl[n]));
        reveal(listed);
        assert forall|k: int| #![trigger decl[k]] 0 <= k < decl.len() && unnamed_in(ex, decl[k].0)
            implies listed(st.unbound, decl[k]) by {
            if k == n {
                assert(st.unbound[s0.unbound.len() as int] == decl[k]);
            } else {
                assert(pre[k] == decl[k]);
                assert(listed(s0.unbound, pre[k]));
                let a = choose|a: int| 0 <= a < s0.unbound.len() && s0.unbound[a] == pre[k];
                assert(st.unbound[a] == decl[k]);
            }
        }
        assert forall|a: int| #![trigger st.unbound[a]] 0 <= a < st.unbound.len()
            implies listed(decl, st.unbound[a]) && unnamed_in(ex, st.unbound[a].0) by {
            if a < s0.unbound.len() {
                assert(s0.unbound[a] == st.unbound[a]);
                let k = choose|k: int| 0 <= k < pre.len() && pre[k] == s0.unbound[a];
                assert(decl[k] == pre[k]);
            } else {
                assert(st.unbound[a] == decl[n]);
            }
        }
        assert forall|a: int, b: int| 0 <= a < st.unbound.len() && 0 <= b < st.unbound.len() && a != b
            implies #[trigger] st.unbound[a].0 != #[trigger] st.unbound[b].0 by {
            if a < s0.unbound.len() && b < s0.unbound.len() {
                assert(st.unbound[a] == s0.unbound[a] && st.unbound[b] == s0.unbound[b]);
            } else if a < s0.unbound.len() {
                assert(s0.unbound[a] == st.unbound[a]);
                let k = choose|k: int| 0 <= k < pre.len() && pre[k] == s0.unbound[a];
                assert(st.unbound[a] == pre[k]);
            } else {
                assert(s0.unbound[b] == st.unbound[b]);
                let k = choose|k: int| 0 <= k < pre.len() && pre[k] == s0.unbound[b];
                assert(st.unbound[b] == pre[k]);
            }
        }
}

proof fn lemma_step_unbound(decl: Seq<(Seq<char>, NormalIndexV)>, ex: Seq<(Seq<char>, NormalIndexV)>)
    requires
        names_distinct(decl),
        decl.len() > 0,
        unbound_by_name(decl.drop_last(), ex, bind_by_name(decl.drop_last(), ex).unbound),
        first_where(ex.len() as int, name_pred(bind_by_name(decl.drop_last(), ex).used, ex, decl.last().0)) < 0
            ==> unnamed_in(ex, decl.last().0),
    ensures
        unbound_by_name(decl, ex, bind_by_name(decl, ex).unbound),
{
    let s0 = bind_by_name(decl.drop_last(), ex);
    if first_where(ex.len() as int, name_pred(s0.used, ex, decl.last().0)) >= 0 {
        lemma_step_unbound_found(decl, ex);
    } else {
        lemma_step_unbound_missing(decl, ex);
    }
}

/// Binding by name uses exactly the existing indexes that a declared index is
/// named after; a declared index is mismatched when the existing index of its
/// name has another structure, and left unbound when there is none.
proof fn lemma_bind_by_name(decl: Seq<(Seq<char>, NormalIndexV)>, ex: Seq<(Seq<char>, NormalIndexV)>)
    requires
        names_distinct(decl),
        names_distinct(ex),
    ensures
        used_by_name(decl, ex, bind_by_name(decl, ex).used),
        mismatched_by_name(decl, ex, bind_by_name(decl, ex).mismatched),
        unbound_by_name(decl, ex, bind_by_name(decl, ex).unbound),
    decreases decl.len(),
{
    reveal(names_distinct);
    if decl.len() > 0 {
        lemma_prefix_distinct(decl);
        lemma_bind_by_name(decl.drop_last(), ex);
        lemma_step_used(decl, ex);
        lemma_step_mismatched(decl, ex);
        lemma_step_unbound(decl, ex);
    }
}


/// `s` is among the names `v`.
#[verifier::opaque]
pub open spec fn among(v: Seq<Seq<char>>, s: Seq<char>) -> bool {
    v.contains(s)
}

/// Some renaming is expected to give the name `s`.
#[verifier::opaque]
pub open spec fn expected_in(drift: Seq<(Seq<char>, Seq<char>)>, s: Seq<char>) -> bool {
    exists|t: int| 0 <= t < drift.len() && drift[t].0 == s
}

/// Some renaming takes an existing index named `s`.
#[verifier::opaque]
pub open spec fn actual_in(drift: Seq<(Seq<char>, Seq<char>)>, s: Seq<char>) -> bool {
    exists|t: int| 0 <= t < drift.len() && drift[t].1 == s
}

/// Some entry of `u` carries the name `s`.
#[verifier::opaque]
pub open spec fn named_in(u: Seq<(Seq<char>, NormalIndexV)>, s: Seq<char>) -> bool {
    exists|a: int| 0 <= a < u.len() && u[a].0 == s
}

proof fn lemma_push_names(v: Seq<Seq<char>>, x: Seq<char>, d: Seq<(Seq<char>, Seq<char>)>, y: (Seq<char>, Seq<char>))
    ensures
        forall|s: Seq<char>| #[trigger] among(v.push(x), s) == (among(v, s) || x == s),
        forall|s: Seq<char>| #[trigger] expected_in(d.push(y), s) == (expected_in(d, s) || y.0 == s),
        forall|s: Seq<char>| #[trigger] actual_in(d.push(y), s) == (actual_in(d, s) || y.1 == s),
{
    reveal(among);
    reveal(expected_in);
    reveal(actual_in);
    assert forall|s: Seq<char>| #[trigger] among(v.push(x), s) == (among(v, s) || x == s) by {
        if v.push(x).contains(s) {
            let i = choose|i: int| 0 <= i < v.push(x).len() && v.push(x)[i] == s;
            if i < v.len() {
                assert(v[i] == s);
            }
        }
        if v.contains(s) {
            let i = choose|i: int| 0 <= i < v.len() && v[i] == s;
            assert(v.push(x)[i] == s);
        }
        if x == s {
            assert(v.push(x)[v.len() as int] == s);
        }
    }
    assert forall|s: Seq<char>| #[trigger] expected_in(d.push(y), s) == (expected_in(d, s) || y.0 == s) by {
        if expected_in(d.push(y), s) {
            let t = choose|t: int| 0 <= t < d.push(y).len() && d.push(y)[t].0 == s;
            if t < d.len() {
                assert(d[t].0 == s);
            }
        }
        if expected_in(d, s) {
            let t = choose|t: int| 0 <= t < d.len() && d[t].0 == s;
            assert(d.push(y)[t].0 == s);
        }
        if y.0 == s {
            assert(d.push(y)[d.len() as int].0 == s);
        }
    }
    assert forall|s: Seq<char>| #[trigger] actual_in(d.push(y), s) == (actual_in(d, s) || y.1 == s) by {
        if actual_in(d.push(y), s) {
            let t = choose|t: int| 0 <= t < d.push(y).len() && d.push(y)[t].1 == s;
            if t < d.len() {
                assert(d[t].1 == s);
            }
        }
        if actual_in(d, s) {
            let t = choose|t: int| 0 <= t < d.len() && d[t].1 == s;
            assert(d.push(y)[t].1 == s);
        }
        if y.1 == s {
            assert(d.push(y)[d.len() as int].1 == s);
        }
    }
}

/// What binding by structure leaves: each unbound declared index either is
/// to be created or renamed, never both and never neither; the names it
/// gives come from the unbound ones; and it uses exactly the existing indexes
/// that a renaming takes.
pub open spec fn structure_facts(
    unbound: Seq<(Seq<char>, NormalIndexV)>,
    ex: Seq<(Seq<char>, NormalIndexV)>,
    used: Seq<bool>,
) -> bool {
    let st = bind_by_structure(unbound, ex, used);
    &&& st.used.len() == used.len()
    &&& forall|s: Seq<char>| #[trigger] among(st.to_create, s) ==> named_in(unbound, s)
    &&& forall|s: Seq<char>| #[trigger] expected_in(st.name_drift, s) ==> named_in(unbound, s)
    &&& forall|a: int| #![trigger unbound[a]] 0 <= a < unbound.len() ==> among(st.to_create, unbound[a].0) != expected_in(
        st.name_drift,
        unbound[a].0,
    )
    &&& forall|j: int| #![trigger st.used[j]] 0 <= j < ex.len() ==> st.used[j] == (used[j] || actual_in(st.name_drift, ex[j].0))
}

#[verifier::rlimit(100)]
proof fn lemma_bind_by_structure(
    unbound: Seq<(Seq<char>, NormalIndexV)>,
    ex: Seq<(Seq<char>, NormalIndexV)>,
    used: Seq<bool>,
)
    requires
        names_distinct(unbound),
        names_distinct(ex),
        used.len() == ex.len(),
    ensures
        structure_facts(unbound, ex, used),
    decreases unbound.len(),
{
    let st = bind_by_structure(unbound, ex, used);
    if unbound.len() == 0 {
        reveal(among);
        reveal(expected_in);
        reveal(actual_in);
    } else {
        let pre = unbound.drop_last();
        lemma_prefix_distinct(unbound);
        lemma_bind_by_structure(pre, ex, used);
        let s0 = bind_by_structure(pre, ex, used);
        let (name, normal) = unbound.last();
        let n = unbound.len() - 1;
        assert(unbound[n] == unbound.last());
        let p = structure_pred(s0.used, ex, normal);
        lemma_first_where(ex.len() as int, p);
        let j0 = first_where(ex.len() as int, p);
        // The new name is none of the earlier ones.
        assert(!named_in(pre, name)) by {
            reveal(named_in);
            if named_in(pre, name) {
                let b = choose|b: int| 0 <= b < pre.len() && pre[b].0 == name;
                assert(pre[b] == unbound[b]);
            }
        }
        assert forall|s: Seq<char>| named_in(pre, s) implies #[trigger] named_in(unbound, s) by {
            reveal(named_in);
            let b = choose|b: int| 0 <= b < pre.len() && pre[b].0 == s;
            assert(unbound[b] == pre[b]);
        }
        assert(named_in(unbound, name)) by {
            reveal(named_in);
        }
        if j0 >= 0 {
            lemma_push_names(s0.to_create, name, s0.name_drift, (name, ex[j0].0));
            assert(st.used == s0.used.update(j0, true));
            assert(st.name_drift == s0.name_drift.push((name, ex[j0].0)));
            assert(st.to_create == s0.to_create);
            assert forall|j: int| #![trigger st.used[j]] 0 <= j < ex.len() implies st.used[j] == (used[j] || actual_in(st.name_drift, ex[j].0)) by {
                assert(s0.used[j] == (used[j] || actual_in(s0.name_drift, ex[j].0)));
                if j != j0 {
                    reveal(names_distinct);
                    assert(ex[j].0 != ex[j0].0);
                }
            }
            assert forall|a: int| #![trigger unbound[a]] 0 <= a < unbound.len() implies among(st.to_create, unbound[a].0) != expected_in(
                st.name_drift,
                unbound[a].0,
            ) by {
                if a < n {
                    assert(pre[a] == unbound[a]);
                    assert(unbound[a].0 != name) by {
                        reveal(named_in);
                    }
                } else {
                    assert(!among(s0.to_create, name));
                }
            }
        } else {
            lemma_push_names(s0.to_create, name, s0.name_drift, (name, name));
            assert(st.used == s0.used);
            assert(st.name_drift == s0.name_drift);
            assert(st.to_create == s0.to_create.push(name));
            assert forall|j: int| #![trigger st.used[j]] 0 <= j < ex.len() implies st.used[j] == (used[j] || actual_in(st.name_drift, ex[j].0)) by {
                assert(s0.used[j] == (used[j] || actual_in(s0.name_drift, ex[j].0)));
            }
            assert forall|a: int| #![trigger unbound[a]] 0 <= a < unbound.len() implies among(st.to_create, unbound[a].0) != expected_in(
                st.name_drift,
                unbound[a].0,
            ) by {
                if a < n {
                    assert(pre[a] == unbound[a]);
                    assert(unbound[a].0 != name) by {
                        reveal(named_in);
                    }
                } else {
                    assert(!expected_in(s0.name_drift, name));
                }
            }
        }
    }
}


/// Each declared index lands in exactly one outcome of the diff. When an
/// existing index carries its name, it is mismatched exactly when the two
/// structures differ, and it is neither to be created nor renamed. When none
/// does, it is not mismatched, and it is either to be created or renamed
/// from an existing index, never both. (Declared names distinct, and the
/// names of the named listings distinct.)
pub proof fn lemma_each_declared_index_lands_once(
    declared: Seq<(Seq<char>, DocV)>,
    existing: Seq<DocV>,
    external: Seq<Seq<char>>,
    k: int,
)
    requires
        names_distinct(declared_named(declared)),
        names_distinct(existing_named(existing)),
        0 <= k < declared.len(),
    ensures
        ({
            let d = diff_spec(declared, existing, external);
            let ex = existing_named(existing);
            let s = declared[k].0;
            let renamed = exists|t: int| 0 <= t < d.name_drift.len() && d.name_drift[t].0 == s;
            &&& (exists|j: int| 0 <= j < ex.len() && ex[j].0 == s) ==> {
                &&& d.mismatched.contains(s) == (exists|j: int| 0 <= j < ex.len() && ex[j].0 == s
                    && !structures_match_spec(normal_index(declared[k].1), ex[j].1, false))
                &&& !d.to_create.contains(s)
                &&& !renamed
            }
            &&& (forall|j: int| 0 <= j < ex.len() ==> ex[j].0 != s) ==> {
                &&& !d.mismatched.contains(s)
                &&& d.to_create.contains(s) != renamed
            }
        }),
{
    let ex = existing_named(existing);
    let dn = declared_named(declared);
    let s = declared[k].0;
    assert(dn[k] == (declared[k].0, normal_index(declared[k].1)));
    lemma_bind_by_name(dn, ex);
    let b = bind_by_name(dn, ex);
    lemma_bind_by_structure(b.unbound, ex, b.used);
    let st = bind_by_structure(b.unbound, ex, b.used);
    let d = diff_spec(declared, existing, external);
    assert(d.mismatched == b.mismatched && d.to_create == st.to_create && d.name_drift == st.name_drift);
    reveal(among);
    reveal(expected_in);
    if exists|j: int| 0 <= j < ex.len() && ex[j].0 == s {
        let j = choose|j: int| 0 <= j < ex.len() && ex[j].0 == s;
        // No unbound declared index carries a name an existing index has.
        assert(!named_in(b.unbound, s)) by {
            reveal(named_in);
            if named_in(b.unbound, s) {
                let a = choose|a: int| 0 <= a < b.unbound.len() && b.unbound[a].0 == s;
                assert(unnamed_in(ex, b.unbound[a].0));
                reveal(unnamed_in);
                assert(ex[j].0 != s);
            }
        }
        assert(!among(st.to_create, s));
        assert(!expected_in(st.name_drift, s));
        assert(d.mismatched.contains(s) == (exists|j: int| 0 <= j < ex.len() && ex[j].0 == s
            && !structures_match_spec(normal_index(declared[k].1), ex[j].1, false))) by {
            if d.mismatched.contains(s) {
                let (k2, j2) = choose|k2: int, j2: int| 0 <= k2 < dn.len() && 0 <= j2 < ex.len()
                    && dn[k2].0 == s && ex[j2].0 == s && !structures_match_spec(dn[k2].1, ex[j2].1, false);
                reveal(names_distinct);
                assert(k2 == k);
            }
            if exists|j: int| 0 <= j < ex.len() && ex[j].0 == s
                && !structures_match_spec(normal_index(declared[k].1), ex[j].1, false) {
                let j2 = choose|j: int| 0 <= j < ex.len() && ex[j].0 == s
                    && !structures_match_spec(normal_index(declared[k].1), ex[j].1, false);
                assert(dn[k].0 == s && ex[j2].0 == s && !structures_match_spec(dn[k].1, ex[j2].1, false));
            }
        }
    }
    if forall|j: int| 0 <= j < ex.len() ==> ex[j].0 != s {
        assert(unnamed_in(ex, dn[k].0)) by {
            reveal(unnamed_in);
        }
        assert(listed(b.unbound, dn[k]));
        reveal(listed);
        let a = choose|a: int| 0 <= a < b.unbound.len() && b.unbound[a] == dn[k];
        assert(b.unbound[a].0 == s);
        assert(among(st.to_create, b.unbound[a].0) != expected_in(st.name_drift, b.unbound[a].0));
        if d.mismatched.contains(s) {
            let (k2, j2) = choose|k2: int, j2: int| 0 <= k2 < dn.len() && 0 <= j2 < ex.len()
                && dn[k2].0 == s && ex[j2].0 == s && !structures_match_spec(dn[k2].1, ex[j2].1, false);
            assert(ex[j2].0 != s);
        }
    }
}


proof fn lemma_unbound_existing_contains(
    ex: Seq<(Seq<char>, NormalIndexV)>,
    used: Seq<bool>,
    external: Seq<Seq<char>>,
    n: Seq<char>,
)
    ensures
        unbound_existing(ex, used, external).contains(n) <==> exists|j: int| 0 <= j < ex.len() && ex[j].0 == n
            && !used[j] && n != "_id_"@ && !external.contains(n),
    decreases ex.len(),
{
    if ex.len() > 0 {
        let pre = ex.drop_last();
        let i = ex.len() - 1;
        lemma_unbound_existing_contains(pre, used, external, n);
        let before = unbound_existing(pre, used, external);
        let r = unbound_existing(ex, used, external);
        let keep = !used[i] && ex[i].0 != "_id_"@ && !external.contains(ex[i].0);
        assert(r == if keep { before.push(ex[i].0) } else { before });
        if r.contains(n) {
            let w = choose|w: int| 0 <= w < r.len() && r[w] == n;
            if w < before.len() {
                assert(before[w] == n);
                let j = choose|j: int| 0 <= j < pre.len() && pre[j].0 == n && !used[j] && n != "_id_"@ && !external.contains(n);
                assert(ex[j] == pre[j]);
            } else {
                assert(ex[i].0 == n);
            }
        }
        if exists|j: int| 0 <= j < ex.len() && ex[j].0 == n && !used[j] && n != "_id_"@ && !external.contains(n) {
            let j = choose|j: int| 0 <= j < ex.len() && ex[j].0 == n && !used[j] && n != "_id_"@ && !external.contains(n);
            if j < i {
                assert(pre[j] == ex[j]);
                assert(before.contains(n));
                let w = choose|w: int| 0 <= w < before.len() && before[w] == n;
                if keep {
                    assert(r[w] == n);
                }
            } else {
                assert(r[before.len() as int] == n);
            }
        }
    }
}

/// The existing indexes to drop are exactly those that carry a name no
/// declared index has and no renaming takes, other than `_id_` and the
/// external ones. (Declared names distinct, and the names of the named
/// listings distinct.)
pub proof fn lemma_dropped_indexes(
    declared: Seq<(Seq<char>, DocV)>,
    existing: Seq<DocV>,
    external: Seq<Seq<char>>,
    n: Seq<char>,
)
    requires
        names_distinct(declared_named(declared)),
        names_distinct(existing_named(existing)),
    ensures
        ({
            let d = diff_spec(declared, existing, external);
            let ex = existing_named(existing);
            d.to_drop.contains(n) <==> {
                &&& exists|j: int| 0 <= j < ex.len() && ex[j].0 == n
                &&& n != "_id_"@
                &&& !external.contains(n)
                &&& !(exists|k: int| 0 <= k < declared.len() && declared[k].0 == n)
                &&& !(exists|t: int| 0 <= t < d.name_drift.len() && d.name_drift[t].1 == n)
            }
        }),
{
    let ex = existing_named(existing);
    let dn = declared_named(declared);
    lemma_bind_by_name(dn, ex);
    let b = bind_by_name(dn, ex);
    lemma_bind_by_structure(b.unbound, ex, b.used);
    let st = bind_by_structure(b.unbound, ex, b.used);
    let d = diff_spec(declared, existing, external);
    assert(d.to_drop == unbound_existing(ex, st.used, external) && d.name_drift == st.name_drift);
    lemma_unbound_existing_contains(ex, st.used, external, n);
    reveal(actual_in);
    assert forall|k: int| 0 <= k < declared.len() implies #[trigger] declared[k].0 == dn[k].0 by {}
    if exists|j: int| 0 <= j < ex.len() && ex[j].0 == n {
        let j = choose|j: int| 0 <= j < ex.len() && ex[j].0 == n;
        assert(st.used[j] == (b.used[j] || actual_in(st.name_drift, ex[j].0)));
        assert(b.used[j] == exists|k: int| 0 <= k < dn.len() && dn[k].0 == ex[j].0);
        if exists|k: int| 0 <= k < declared.len() && declared[k].0 == n {
            let k = choose|k: int| 0 <= k < declared.len() && declared[k].0 == n;
            assert(dn[k].0 == n);
        }
        if exists|k: int| 0 <= k < dn.len() && dn[k].0 == n {
            let k = choose|k: int| 0 <= k < dn.len() && dn[k].0 == n;
            assert(declared[k].0 == n);
        }
        if d.to_drop.contains(n) {
            let j2 = choose|j2: int| 0 <= j2 < ex.len() && ex[j2].0 == n && !st.used[j2] && n != "_id_"@ && !external.contains(n);
            reveal(names_distinct);
            assert(j2 == j);
        }
    }
}

/// The external indexes reported missing are exactly the external names that
/// no named listing carries, in their order.
pub proof fn lemma_missing_external_indexes(
    declared: Seq<(Seq<char>, DocV)>,
    existing: Seq<DocV>,
    external: Seq<Seq<char>>,
    x: Seq<char>,
)
    ensures
        diff_spec(declared, existing, external).missing_external.contains(x) <==> external.contains(x)
            && !(exists|j: int| 0 <= j < existing_named(existing).len() && existing_named(existing)[j].0 == x),
    decreases external.len(),
{
    let ex = existing_named(existing);
    if external.len() > 0 {
        let pre = external.drop_last();
        lemma_missing_external_indexes(declared, existing, pre, x);
        let before = missing_external(pre, ex);
        let r = missing_external(external, ex);
        let y = external.last();
        let keep = !(exists|j: int| 0 <= j < ex.len() && ex[j].0 == y);
        assert(before == diff_spec(declared, existing, pre).missing_external);
        assert(r == diff_spec(declared, existing, external).missing_external);
        assert(r == if keep { before.push(y) } else { before });
        if r.contains(x) {
            let w = choose|w: int| 0 <= w < r.len() && r[w] == x;
            if w < before.len() {
                assert(before[w] == x);
                let i = choose|i: int| 0 <= i < pre.len() && pre[i] == x;
                assert(external[i] == x);
            } else {
                assert(external[external.len() - 1] == x);
            }
        }
        if external.contains(x) && !(exists|j: int| 0 <= j < ex.len() && ex[j].0 == x) {
            let i = choose|i: int| 0 <= i < external.len() && external[i] == x;
            if i < pre.len() {
                assert(pre[i] == x);
                let w = choose|w: int| 0 <= w < before.len() && before[w] == x;
                if keep {
                    assert(r[w] == x);
                }
            } else {
                assert(r[before.len() as int] == x);
            }
        }
    }
}


/// Every name the diff creates, renames to, or finds mismatched is a declared
/// index's name. (Declared names distinct, and the names of the named
/// listings distinct.)
pub proof fn lemma_diff_names_are_declared(
    declared: Seq<(Seq<char>, DocV)>,
    existing: Seq<DocV>,
    external: Seq<Seq<char>>,
    s: Seq<char>,
)
    requires
        names_distinct(declared_named(declared)),
        names_distinct(existing_named(existing)),
    ensures
        ({
            let d = diff_spec(declared, existing, external);
            d.to_create.contains(s) || d.mismatched.contains(s) || (exists|t: int|
                0 <= t < d.name_drift.len() && d.name_drift[t].0 == s) ==> exists|k: int| 0 <= k < declared.len()
                && declared[k].0 == s
        }),
{
    let ex = existing_named(existing);
    let dn = declared_named(declared);
    lemma_bind_by_name(dn, ex);
    let b = bind_by_name(dn, ex);
    lemma_bind_by_structure(b.unbound, ex, b.used);
    let st = bind_by_structure(b.unbound, ex, b.used);
    let d = diff_spec(declared, existing, external);
    assert(d.mismatched == b.mismatched && d.to_create == st.to_create && d.name_drift == st.name_drift);
    reveal(among);
    reveal(expected_in);
    if d.mismatched.contains(s) {
        let (k, j) = choose|k: int, j: int| 0 <= k < dn.len() && 0 <= j < ex.len()
            && dn[k].0 == s && ex[j].0 == s && !structures_match_spec(dn[k].1, ex[j].1, false);
        assert(declared[k].0 == dn[k].0);
    } else if among(st.to_create, s) || expected_in(st.name_drift, s) {
        assert(named_in(b.unbound, s));
        reveal(named_in);
        let a = choose|a: int| 0 <= a < b.unbound.len() && b.unbound[a].0 == s;
        assert(listed(dn, b.unbound[a]));
        reveal(listed);
        let k = choose|k: int| 0 <= k < dn.len() && dn[k] == b.unbound[a];
        assert(declared[k].0 == dn[k].0);
    }
}


/// The listings a server gives for exactly the declared indexes, each under
/// its declared name, after its own `_id_` listing when there is one.
pub open spec fn declared_listings(declared: Seq<(Seq<char>, DocV)>, id_listing: Option<DocV>) -> Seq<DocV> {
    let own = declared.map_values(|e: (Seq<char>, DocV)| e.1);
    match id_listing {
        Some(l) => seq![l] + own,
        None => own,
    }
}

/// When the server lists exactly the declared indexes, each under its
/// declared name (the names distinct and none of them `_id_`), with or
/// without its `_id_` listing, and no external index is expected, nothing
/// differs: nothing to create, drop or rename, nothing mismatched, nothing
/// missing. The bounds must be no `NaN`, and a wildcard projection must
/// hold no `NaN` and no repeated key: such a declaration is mismatched even
/// against its own listing.
pub proof fn lemma_listed_declared_indexes_are_in_sync(declared: Seq<(Seq<char>, DocV)>, id_listing: Option<DocV>)
    requires
        id_listing matches Some(l) ==> doc_get(l, "name"@) == Some(BsonV::Str("_id_"@)),
        forall|i: int| 0 <= i < declared.len() ==> doc_get((#[trigger] declared[i]).1, "name"@) == Some(BsonV::Str(declared[i].0)),
        forall|i: int| 0 <= i < declared.len() ==> (#[trigger] declared[i]).0 != "_id_"@,
        forall|i: int, j: int| 0 <= i < j < declared.len() ==> (#[trigger] declared[i]).0 != (#[trigger] declared[j]).0,
        forall|i: int| 0 <= i < declared.len() ==> not_nan_bound(normal_index((#[trigger] declared[i]).1).min),
        forall|i: int| 0 <= i < declared.len() ==> not_nan_bound(normal_index((#[trigger] declared[i]).1).max),
        forall|i: int| 0 <= i < declared.len() ==> (normal_index((#[trigger] declared[i]).1).wildcard_projection matches Some(w)
            ==> plain(BsonV::Doc(w))),
    ensures
        ({
            let d = diff_spec(declared, declared_listings(declared, id_listing), Seq::empty());
            &&& d.to_create.len() == 0
            &&& d.to_drop.len() == 0
            &&& d.mismatched.len() == 0
            &&& d.name_drift.len() == 0
            &&& d.missing_external.len() == 0
        }),
{
    let existing = declared_listings(declared, id_listing);
    let off: int = if id_listing is Some { 1 } else { 0 };
    let own_names = declared.map_values(|e: (Seq<char>, DocV)| e.0);
    let names = if id_listing is Some { seq!["_id_"@] + own_names } else { own_names };
    assert(existing.len() == declared.len() + off);
    assert(names.len() == existing.len());
    assert forall|i: int| 0 <= i < existing.len() implies doc_get(#[trigger] existing[i], "name"@) == Some(BsonV::Str(names[i])) by {
        if i >= off {
            assert(existing[i] == declared[i - off].1);
            assert(names[i] == declared[i - off].0);
        } else {
            assert(existing[i] == id_listing->0);
            assert(names[i] == "_id_"@);
        }
    }
    lemma_existing_named_all(existing, names);
    let ex = existing_named(existing);
    let dn = declared_named(declared);
    assert forall|k: int| 0 <= k < declared.len() implies #[trigger] ex[k + off] == dn[k] by {
        assert(existing[k + off] == declared[k].1);
        assert(names[k + off] == declared[k].0);
    }
    assert(names_distinct(dn)) by {
        reveal(names_distinct);
        assert forall|i: int, j: int| 0 <= i < dn.len() && 0 <= j < dn.len() && i != j implies #[trigger] dn[i].0 != #[trigger] dn[j].0 by {
            assert(dn[i].0 == declared[i].0 && dn[j].0 == declared[j].0);
            if i < j {
                assert(declared[i].0 != declared[j].0);
            } else {
                assert(declared[j].0 != declared[i].0);
            }
        }
    }
    // Every listing is `_id_` or a declared index, under its own name.
    assert forall|j: int| 0 <= j < ex.len() implies (#[trigger] ex[j]).0 == "_id_"@ && j < off || (off <= j && ex[j] == dn[j - off]) by {
        if j >= off {
            assert(ex[j - off + off] == dn[j - off]);
        } else {
            assert(ex[j].0 == names[j]);
        }
    }
    assert(names_distinct(ex)) by {
        reveal(names_distinct);
        assert forall|i: int, j: int| 0 <= i < ex.len() && 0 <= j < ex.len() && i != j implies #[trigger] ex[i].0 != #[trigger] ex[j].0 by {
            if i >= off && j >= off {
                assert(dn[i - off].0 != dn[j - off].0);
            } else if i >= off {
                assert(dn[i - off].0 == declared[i - off].0);
            } else if j >= off {
                assert(dn[j - off].0 == declared[j - off].0);
            }
        }
    }
    let d = diff_spec(declared, existing, Seq::empty());
    // A declared index meets its own listing, so it lands in no outcome.
    assert forall|k: int| 0 <= k < declared.len() implies {
        &&& !d.mismatched.contains(#[trigger] declared[k].0)
        &&& !d.to_create.contains(declared[k].0)
        &&& !(exists|t: int| 0 <= t < d.name_drift.len() && d.name_drift[t].0 == declared[k].0)
    } by {
        lemma_each_declared_index_lands_once(declared, existing, Seq::empty(), k);
        lemma_structure_meets_itself(normal_index(declared[k].1));
        let s = declared[k].0;
        assert(ex[k + off] == dn[k]);
        assert(dn[k] == (declared[k].0, normal_index(declared[k].1)));
        assert(ex[k + off].0 == s);
        if exists|j: int| 0 <= j < ex.len() && ex[j].0 == s && !structures_match_spec(normal_index(declared[k].1), ex[j].1, false) {
            let j = choose|j: int| 0 <= j < ex.len() && ex[j].0 == s && !structures_match_spec(normal_index(declared[k].1), ex[j].1, false);
            reveal(names_distinct);
            assert(j == k + off);
        }
    }
    if d.to_create.len() > 0 {
        let s = d.to_create[0];
        lemma_diff_names_are_declared(declared, existing, Seq::empty(), s);
        assert(d.to_create.contains(s));
    }
    if d.mismatched.len() > 0 {
        let s = d.mismatched[0];
        lemma_diff_names_are_declared(declared, existing, Seq::empty(), s);
        assert(d.mismatched.contains(s));
    }
    if d.name_drift.len() > 0 {
        let s = d.name_drift[0].0;
        lemma_diff_names_are_declared(declared, existing, Seq::empty(), s);
        let k = choose|k: int| 0 <= k < declared.len() && declared[k].0 == s;
        assert(!(exists|t: int| 0 <= t < d.name_drift.len() && d.name_drift[t].0 == declared[k].0));
    }
    if d.to_drop.len() > 0 {
        let n = d.to_drop[0];
        lemma_dropped_indexes(declared, existing, Seq::empty(), n);
        assert(d.to_drop.contains(n));
        let j = choose|j: int| 0 <= j < ex.len() && ex[j].0 == n;
        if j >= off {
            assert(dn[j - off].0 == declared[j - off].0);
        }
    }
    if d.missing_external.len() > 0 {
        lemma_missing_external_indexes(declared, existing, Seq::empty(), d.missing_external[0]);
        assert(d.missing_external.contains(d.missing_external[0]));
    }
}


/// A value that equals itself: no `NaN` double and no repeated key in a
/// document, all the way down.
pub open spec fn plain(b: BsonV) -> bool
    decreases b,
{
    match b {
        BsonV::Double(f) => !is_nan(f.bits),
        BsonV::Array(x) => forall|i: int| 0 <= i < x.len() ==> plain(#[trigger] x[i]),
        BsonV::Doc(x) => {
            &&& forall|i: int, j: int| 0 <= i < j < x.len() ==> (#[trigger] x[i]).0 != (#[trigger] x[j]).0
            &&& forall|i: int| 0 <= i < x.len() ==> plain(#[trigger] x[i].1)
        },
        _ => true,
    }
}

proof fn lemma_text_eq_refl(b: BsonV)
    ensures
        text_eq(b, b),
    decreases b,
{
    match b {
        BsonV::Array(x) => {
            assert forall|i: int| 0 <= i < x.len() implies text_eq(x[i], #[trigger] x[i]) by {
                lemma_text_eq_refl(x[i]);
            }
        },
        BsonV::Doc(x) => {
            assert forall|i: int| 0 <= i < x.len() implies x[i].0 == (#[trigger] x[i]).0 && text_eq(x[i].1, x[i].1) by {
                lemma_text_eq_refl(x[i].1);
            }
        },
        _ => {},
    }
}

proof fn lemma_value_eq_refl(b: BsonV)
    requires
        plain(b),
    ensures
        value_eq(b, b),
    decreases b,
{
    match b {
        BsonV::Array(x) => {
            assert forall|i: int| 0 <= i < x.len() implies value_eq(x[i], #[trigger] x[i]) by {
                assert(plain(x[i]));
                lemma_value_eq_refl(x[i]);
            }
        },
        BsonV::Doc(x) => {
            assert forall|i: int| 0 <= i < x.len() implies (#[trigger] doc_get(x, x[i].0) matches Some(w) && value_eq(x[i].1, w)) by {
                assert(is_first_key(x, x[i].0, i)) by {
                    assert forall|j: int| 0 <= j < i implies x[j].0 != x[i].0 by {
                        assert(x[j].0 != x[i].0);
                    }
                }
                lemma_first_key_unique(x, x[i].0, i);
                assert(plain(x[i].1));
                lemma_value_eq_refl(x[i].1);
            }
        },
        _ => {},
    }
}

/// A bound that is no `NaN` double.
pub open spec fn not_nan_bound(n: Option<Number>) -> bool {
    !(n matches Some(Number::Float(f)) && is_nan(f.bits))
}

/// An index whose bounds are no `NaN` and whose wildcard projection equals
/// itself meets its own structure.
pub proof fn lemma_structure_meets_itself(n: NormalIndexV)
    requires
        not_nan_bound(n.min),
        not_nan_bound(n.max),
        n.wildcard_projection matches Some(w) ==> plain(BsonV::Doc(w)),
    ensures
        structures_match_spec(n, n, false),
{
    reveal(structures_match_spec);
    assert forall|i: int| 0 <= i < n.prefix_keys.len() implies n.prefix_keys[i].0 == (#[trigger] n.prefix_keys[i]).0
        && key_eq(n.prefix_keys[i].1, n.prefix_keys[i].1) by {
        if let NormalKeyV::Kind(x) = n.prefix_keys[i].1 {
            lemma_text_eq_refl(x);
        }
    }
    assert forall|i: int| 0 <= i < n.suffix_keys.len() implies n.suffix_keys[i].0 == (#[trigger] n.suffix_keys[i]).0
        && key_eq(n.suffix_keys[i].1, n.suffix_keys[i].1) by {
        if let NormalKeyV::Kind(x) = n.suffix_keys[i].1 {
            lemma_text_eq_refl(x);
        }
    }
    if let Some(p) = n.partial {
        lemma_text_eq_refl(BsonV::Doc(p));
    }
    if let Some(w) = n.wildcard_projection {
        lemma_value_eq_refl(BsonV::Doc(w));
    }
}


/// The names of the entries, in order.
pub open spec fn entry_names(ex: Seq<(Seq<char>, NormalIndexV)>) -> Seq<Seq<char>> {
    ex.map_values(|e: (Seq<char>, NormalIndexV)| e.0)
}

proof fn lemma_unbound_existing_filter(
    ex: Seq<(Seq<char>, NormalIndexV)>,
    used: Seq<bool>,
    external: Seq<Seq<char>>,
    p: spec_fn(Seq<char>) -> bool,
)
    requires
        forall|j: int| 0 <= j < ex.len() ==> (!used[j] && (#[trigger] ex[j]).0 != "_id_"@ && !external.contains(ex[j].0))
            == p(ex[j].0),
    ensures
        unbound_existing(ex, used, external) == entry_names(ex).filter(p),
    decreases ex.len(),
{
    reveal(Seq::filter);
    if ex.len() > 0 {
        let pre = ex.drop_last();
        assert forall|j: int| 0 <= j < pre.len() implies (!used[j] && (#[trigger] pre[j]).0 != "_id_"@ && !external.contains(pre[j].0))
            == p(pre[j].0) by {
            assert(pre[j] == ex[j]);
        }
        lemma_unbound_existing_filter(pre, used, external, p);
        assert(entry_names(ex).drop_last() =~= entry_names(pre));
        assert(entry_names(ex).last() == ex[ex.len() - 1].0);
    } else {
        assert(entry_names(ex) =~= Seq::<Seq<char>>::empty());
    }
}

/// The existing indexes to drop, in listing order: the names of the named
/// listings that are not `_id_`, not external, no declared index's name, and
/// taken by no renaming. (Declared names distinct, and the names of the
/// named listings distinct.)
pub proof fn lemma_dropped_indexes_in_order(
    declared: Seq<(Seq<char>, DocV)>,
    existing: Seq<DocV>,
    external: Seq<Seq<char>>,
)
    requires
        names_distinct(declared_named(declared)),
        names_distinct(existing_named(existing)),
    ensures
        ({
            let d = diff_spec(declared, existing, external);
            d.to_drop == entry_names(existing_named(existing)).filter(|n: Seq<char>| {
                &&& n != "_id_"@
                &&& !external.contains(n)
                &&& !(exists|k: int| 0 <= k < declared.len() && declared[k].0 == n)
                &&& !(exists|t: int| 0 <= t < d.name_drift.len() && d.name_drift[t].1 == n)
            })
        }),
{
    let ex = existing_named(existing);
    let dn = declared_named(declared);
    lemma_bind_by_name(dn, ex);
    let b = bind_by_name(dn, ex);
    lemma_bind_by_structure(b.unbound, ex, b.used);
    let st = bind_by_structure(b.unbound, ex, b.used);
    let d = diff_spec(declared, existing, external);
    let p = |n: Seq<char>| {
        &&& n != "_id_"@
        &&& !external.contains(n)
        &&& !(exists|k: int| 0 <= k < declared.len() && declared[k].0 == n)
        &&& !(exists|t: int| 0 <= t < d.name_drift.len() && d.name_drift[t].1 == n)
    };
    assert(d.to_drop == unbound_existing(ex, st.used, external) && d.name_drift == st.name_drift);
    reveal(actual_in);
    assert forall|j: int| 0 <= j < ex.len() implies (!st.used[j] && (#[trigger] ex[j]).0 != "_id_"@ && !external.contains(ex[j].0))
        == p(ex[j].0) by {
        let n = ex[j].0;
        assert(st.used[j] == (b.used[j] || actual_in(st.name_drift, n)));
        assert(b.used[j] == exists|k: int| 0 <= k < dn.len() && dn[k].0 == n);
        if exists|k: int| 0 <= k < declared.len() && declared[k].0 == n {
            let k = choose|k: int| 0 <= k < declared.len() && declared[k].0 == n;
            assert(dn[k].0 == n);
        }
        if exists|k: int| 0 <= k < dn.len() && dn[k].0 == n {
            let k = choose|k: int| 0 <= k < dn.len() && dn[k].0 == n;
            assert(declared[k].0 == n);
        }
    }
    lemma_unbound_existing_filter(ex, st.used, external, p);
}

/// The external indexes reported missing, in their declared order: the
/// external names that no named listing carries.
pub proof fn lemma_missing_external_in_order(
    declared: Seq<(Seq<char>, DocV)>,
    existing: Seq<DocV>,
    external: Seq<Seq<char>>,
)
    ensures
        diff_spec(declared, existing, external).missing_external == external.filter(|x: Seq<char>|
            !(exists|j: int| 0 <= j < existing_named(existing).len() && existing_named(existing)[j].0 == x)),
    decreases external.len(),
{
    reveal(Seq::filter);
    if external.len() > 0 {
        lemma_missing_external_in_order(declared, existing, external.drop_last());
    }
}


proof fn lemma_mismatched_distinct(decl: Seq<(Seq<char>, NormalIndexV)>, ex: Seq<(Seq<char>, NormalIndexV)>)
    requires
        names_distinct(decl),
        names_distinct(ex),
    ensures
        bind_by_name(decl, ex).mismatched.no_duplicates(),
    decreases decl.len(),
{
    if decl.len() > 0 {
        let pre = decl.drop_last();
        lemma_prefix_distinct(decl);
        lemma_mismatched_distinct(pre, ex);
        lemma_bind_by_name(pre, ex);
        let s0 = bind_by_name(pre, ex);
        let st = bind_by_name(decl, ex);
        let name = decl.last().0;
        if st.mismatched != s0.mismatched {
            assert(st.mismatched == s0.mismatched.push(name));
            assert(!s0.mismatched.contains(name)) by {
                if s0.mismatched.contains(name) {
                    let (k, j) = choose|k: int, j: int| 0 <= k < pre.len() && 0 <= j < ex.len()
                        && pre[k].0 == name && ex[j].0 == name && !structures_match_spec(pre[k].1, ex[j].1, false);
                    assert(pre[k].0 != decl.last().0);
                }
            }
            assert forall|i: int, j: int| 0 <= i < st.mismatched.len() && 0 <= j < st.mismatched.len() && i != j
                implies st.mismatched[i] != st.mismatched[j] by {
                if i < s0.mismatched.len() && j < s0.mismatched.len() {
                    assert(st.mismatched[i] == s0.mismatched[i] && st.mismatched[j] == s0.mismatched[j]);
                } else if i < s0.mismatched.len() {
                    assert(s0.mismatched[i] == st.mismatched[i]);
                } else {
                    assert(s0.mismatched[j] == st.mismatched[j]);
                }
            }
        }
    }
}

/// The names a renaming gives, in order.
pub open spec fn expected_names(drift: Seq<(Seq<char>, Seq<char>)>) -> Seq<Seq<char>> {
    drift.map_values(|e: (Seq<char>, Seq<char>)| e.0)
}

proof fn lemma_structure_distinct(
    unbound: Seq<(Seq<char>, NormalIndexV)>,
    ex: Seq<(Seq<char>, NormalIndexV)>,
    used: Seq<bool>,
)
    requires
        names_distinct(unbound),
        names_distinct(ex),
        used.len() == ex.len(),
    ensures
        bind_by_structure(unbound, ex, used).to_create.no_duplicates(),
        expected_names(bind_by_structure(unbound, ex, used).name_drift).no_duplicates(),
    decreases unbound.len(),
{
    if unbound.len() > 0 {
        let pre = unbound.drop_last();
        lemma_prefix_distinct(unbound);
        lemma_structure_distinct(pre, ex, used);
        lemma_bind_by_structure(pre, ex, used);
        let s0 = bind_by_structure(pre, ex, used);
        let st = bind_by_structure(unbound, ex, used);
        let name = unbound.last().0;
        assert(!named_in(pre, name)) by {
            reveal(named_in);
            if named_in(pre, name) {
                let b = choose|b: int| 0 <= b < pre.len() && pre[b].0 == name;
                assert(pre[b].0 != unbound.last().0);
            }
        }
        assert(!among(s0.to_create, name));
        assert(!expected_in(s0.name_drift, name));
        let e0 = expected_names(s0.name_drift);
        let e1 = expected_names(st.name_drift);
        if st.to_create != s0.to_create {
            assert(st.to_create == s0.to_create.push(name));
            assert(e1 == e0);
            assert(!s0.to_create.contains(name)) by {
                reveal(among);
            }
            assert forall|i: int, j: int| 0 <= i < st.to_create.len() && 0 <= j < st.to_create.len() && i != j
                implies st.to_create[i] != st.to_create[j] by {
                if i < s0.to_create.len() && j < s0.to_create.len() {
                    assert(st.to_create[i] == s0.to_create[i] && st.to_create[j] == s0.to_create[j]);
                } else if i < s0.to_create.len() {
                    assert(s0.to_create[i] == st.to_create[i]);
                } else {
                    assert(s0.to_create[j] == st.to_create[j]);
                }
            }
        } else {
            assert(st.name_drift.len() == s0.name_drift.len() + 1);
            assert(st.name_drift.drop_last() == s0.name_drift);
            assert(st.name_drift.last().0 == name);
            assert(e1 =~= e0.push(name));
            assert(!e0.contains(name)) by {
                reveal(expected_in);
                if e0.contains(name) {
                    let t = choose|t: int| 0 <= t < e0.len() && e0[t] == name;
                    assert(s0.name_drift[t].0 == name);
                }
            }
            assert forall|i: int, j: int| 0 <= i < e1.len() && 0 <= j < e1.len() && i != j
                implies e1[i] != e1[j] by {
                if i < e0.len() && j < e0.len() {
                    assert(e1[i] == e0[i] && e1[j] == e0[j]);
                } else if i < e0.len() {
                    assert(e0[i] == e1[i]);
                } else {
                    assert(e0[j] == e1[j]);
                }
            }
        }
    }
}

/// No name is repeated in the diff: each of the lists to create, mismatched
/// and renamed-to holds a name at most once, and no name is in two of them.
/// (Declared names distinct, and the names of the named listings distinct.)
pub proof fn lemma_diff_names_do_not_repeat(
    declared: Seq<(Seq<char>, DocV)>,
    existing: Seq<DocV>,
    external: Seq<Seq<char>>,
    s: Seq<char>,
)
    requires
        names_distinct(declared_named(declared)),
        names_distinct(existing_named(existing)),
    ensures
        ({
            let d = diff_spec(declared, existing, external);
            let renamed = exists|t: int| 0 <= t < d.name_drift.len() && d.name_drift[t].0 == s;
            &&& d.to_create.no_duplicates()
            &&& d.mismatched.no_duplicates()
            &&& expected_names(d.name_drift).no_duplicates()
            &&& !(d.to_create.contains(s) && d.mismatched.contains(s))
            &&& !(d.to_create.contains(s) && renamed)
            &&& !(d.mismatched.contains(s) && renamed)
        }),
{
    let ex = existing_named(existing);
    let dn = declared_named(declared);
    lemma_bind_by_name(dn, ex);
    let b = bind_by_name(dn, ex);
    lemma_mismatched_distinct(dn, ex);
    lemma_structure_distinct(b.unbound, ex, b.used);
    let d = diff_spec(declared, existing, external);
    let renamed = exists|t: int| 0 <= t < d.name_drift.len() && d.name_drift[t].0 == s;
    lemma_diff_names_are_declared(declared, existing, external, s);
    if d.to_create.contains(s) || d.mismatched.contains(s) || renamed {
        let k = choose|k: int| 0 <= k < declared.len() && declared[k].0 == s;
        lemma_each_declared_index_lands_once(declared, existing, external, k);
    }
}


/// A renaming from `e.1` to `e.0` pairs an unbound declared index with an
/// existing index, not `_id_` and not bound before, of the same structure
/// under strict collation rules.
#[verifier::opaque]
pub open spec fn renaming_fits(
    unbound: Seq<(Seq<char>, NormalIndexV)>,
    ex: Seq<(Seq<char>, NormalIndexV)>,
    used: Seq<bool>,
    e: (Seq<char>, Seq<char>),
) -> bool {
    exists|a: int, j: int| 0 <= a < unbound.len() && 0 <= j < ex.len() && unbound[a].0 == e.0 && ex[j].0 == e.1
        && !used[j] && ex[j].0 != "_id_"@ && structures_match_spec(unbound[a].1, ex[j].1, true)
}

proof fn lemma_renamings_fit(
    unbound: Seq<(Seq<char>, NormalIndexV)>,
    ex: Seq<(Seq<char>, NormalIndexV)>,
    used: Seq<bool>,
)
    requires
        names_distinct(unbound),
        names_distinct(ex),
        used.len() == ex.len(),
    ensures
        forall|t: int| 0 <= t < bind_by_structure(unbound, ex, used).name_drift.len() ==> renaming_fits(
            unbound,
            ex,
            used,
            #[trigger] bind_by_structure(unbound, ex, used).name_drift[t],
        ),
    decreases unbound.len(),
{
    if unbound.len() > 0 {
        let pre = unbound.drop_last();
        lemma_prefix_distinct(unbound);
        lemma_renamings_fit(pre, ex, used);
        lemma_bind_by_structure(pre, ex, used);
        let s0 = bind_by_structure(pre, ex, used);
        let st = bind_by_structure(unbound, ex, used);
        let (name, normal) = unbound.last();
        let n = unbound.len() - 1;
        assert(unbound[n] == unbound.last());
        let p = structure_pred(s0.used, ex, normal);
        lemma_first_where(ex.len() as int, p);
        let j0 = first_where(ex.len() as int, p);
        reveal(renaming_fits);
        assert forall|t: int| 0 <= t < st.name_drift.len() implies renaming_fits(unbound, ex, used, #[trigger] st.name_drift[t]) by {
            if t < s0.name_drift.len() {
                assert(st.name_drift[t] == s0.name_drift[t]);
                assert(renaming_fits(pre, ex, used, s0.name_drift[t]));
                let (a, j) = choose|a: int, j: int| 0 <= a < pre.len() && 0 <= j < ex.len() && pre[a].0 == s0.name_drift[t].0
                    && ex[j].0 == s0.name_drift[t].1 && !used[j] && ex[j].0 != "_id_"@ && structures_match_spec(pre[a].1, ex[j].1, true);
                assert(unbound[a] == pre[a]);
            } else {
                assert(j0 >= 0);
                assert(st.name_drift[t] == (name, ex[j0].0));
                assert(!s0.used[j0]);
                assert(s0.used[j0] == (used[j0] || actual_in(s0.name_drift, ex[j0].0)));
                assert(unbound[n].0 == name && unbound[n].1 == normal);
            }
        }
    }
}

/// Each renaming takes an existing index that is not `_id_`, that no
/// declared index is named after, and that has the renamed declared index's
/// structure under strict collation rules. (Declared names distinct, and the
/// names of the named listings distinct.)
pub proof fn lemma_renamings_take_free_matching_indexes(
    declared: Seq<(Seq<char>, DocV)>,
    existing: Seq<DocV>,
    external: Seq<Seq<char>>,
    t: int,
)
    requires
        names_distinct(declared_named(declared)),
        names_distinct(existing_named(existing)),
        0 <= t < diff_spec(declared, existing, external).name_drift.len(),
    ensures
        ({
            let d = diff_spec(declared, existing, external);
            let ex = existing_named(existing);
            let (expected, actual) = d.name_drift[t];
            &&& actual != "_id_"@
            &&& !(exists|k: int| 0 <= k < declared.len() && declared[k].0 == actual)
            &&& exists|k: int, j: int| 0 <= k < declared.len() && 0 <= j < ex.len() && declared[k].0 == expected
                && ex[j].0 == actual && structures_match_spec(normal_index(declared[k].1), ex[j].1, true)
        }),
{
    let ex = existing_named(existing);
    let dn = declared_named(declared);
    lemma_bind_by_name(dn, ex);
    let b = bind_by_name(dn, ex);
    lemma_renamings_fit(b.unbound, ex, b.used);
    let st = bind_by_structure(b.unbound, ex, b.used);
    let d = diff_spec(declared, existing, external);
    assert(d.name_drift == st.name_drift);
    let e = st.name_drift[t];
    assert(renaming_fits(b.unbound, ex, b.used, e));
    reveal(renaming_fits);
    let (a, j) = choose|a: int, j: int| 0 <= a < b.unbound.len() && 0 <= j < ex.len() && b.unbound[a].0 == e.0 && ex[j].0 == e.1
        && !b.used[j] && ex[j].0 != "_id_"@ && structures_match_spec(b.unbound[a].1, ex[j].1, true);
    assert(b.used[j] == exists|k: int| 0 <= k < dn.len() && dn[k].0 == ex[j].0);
    if exists|k: int| 0 <= k < declared.len() && declared[k].0 == e.1 {
        let k = choose|k: int| 0 <= k < declared.len() && declared[k].0 == e.1;
        assert(dn[k].0 == e.1);
    }
    assert(listed(dn, b.unbound[a]));
    reveal(listed);
    let k = choose|k: int| 0 <= k < dn.len() && dn[k] == b.unbound[a];
    assert(dn[k] == (declared[k].0, normal_index(declared[k].1)));
}


/// A declared index and an existing one match only when their options agree:
/// the same flags (unique, sparse, hidden), the same expiry, text fields and
/// weights.
pub proof fn lemma_matching_indexes_agree(declared: NormalIndexV, existing: NormalIndexV, strict_collation: bool)
    ensures
        structures_match_spec(declared, existing, strict_collation) ==> {
            &&& declared.unique == existing.unique
            &&& declared.sparse == existing.sparse
            &&& declared.hidden == existing.hidden
            &&& declared.ttl_seconds == existing.ttl_seconds
            &&& declared.text_fields == existing.text_fields
            &&& declared.weights == existing.weights
            &&& declared.prefix_keys.len() == existing.prefix_keys.len()
            &&& declared.suffix_keys.len() == existing.suffix_keys.len()
            &&& forall|i: int| 0 <= i < declared.prefix_keys.len() ==> (#[trigger] declared.prefix_keys[i]).0 == existing.prefix_keys[i].0
            &&& forall|i: int| 0 <= i < declared.suffix_keys.len() ==> (#[trigger] declared.suffix_keys[i]).0 == existing.suffix_keys[i].0
            &&& (declared.partial is Some <==> existing.partial is Some)
            &&& (declared.wildcard_projection is Some <==> existing.wildcard_projection is Some)
            &&& (declared.bits matches Some(b) ==> existing.bits == Some(b))
            &&& (declared.min is Some ==> existing.min is Some)
            &&& (declared.max is Some ==> existing.max is Some)
            &&& (declared.collation matches NormalCollationV::Locale(l, st) ==> existing.collation == NormalCollationV::Locale(l, st))
        },
{
    reveal(structures_match_spec);
}

proof fn lemma_existing_named_member(existing: Seq<DocV>, j: int, s: Seq<char>)
    requires
        0 <= j < existing.len(),
        doc_get(existing[j], "name"@) == Some(BsonV::Str(s)),
    ensures
        exists|i: int| 0 <= i < existing_named(existing).len() && existing_named(existing)[i] == (s, normal_index(existing[j])),
    decreases existing.len(),
{
    let ex = existing_named(existing);
    let pre = existing.drop_last();
    if j == existing.len() - 1 {
        assert(existing.last() == existing[j]);
        assert(ex[ex.len() - 1] == (s, normal_index(existing[j])));
    } else {
        assert(pre[j] == existing[j]);
        lemma_existing_named_member(pre, j, s);
        let i = choose|i: int| 0 <= i < existing_named(pre).len() && existing_named(pre)[i] == (s, normal_index(pre[j]));
        assert(ex[i] == existing_named(pre)[i]);
    }
}

/// A declared index whose listing of the same name differs in a flag
/// (unique, sparse or hidden) or in its expiry is reported mismatched.
/// (Declared names distinct, and the names of the named listings distinct.)
pub proof fn lemma_flag_drift_is_mismatched(
    declared: Seq<(Seq<char>, DocV)>,
    existing: Seq<DocV>,
    external: Seq<Seq<char>>,
    k: int,
    j: int,
)
    requires
        names_distinct(declared_named(declared)),
        names_distinct(existing_named(existing)),
        0 <= k < declared.len(),
        0 <= j < existing.len(),
        doc_get(existing[j], "name"@) == Some(BsonV::Str(declared[k].0)),
        ({
            let d = normal_index(declared[k].1);
            let e = normal_index(existing[j]);
            d.unique != e.unique || d.sparse != e.sparse || d.hidden != e.hidden || d.ttl_seconds != e.ttl_seconds
        }),
    ensures
        diff_spec(declared, existing, external).mismatched.contains(declared[k].0),
{
    let s = declared[k].0;
    lemma_existing_named_member(existing, j, s);
    let ex = existing_named(existing);
    let i = choose|i: int| 0 <= i < ex.len() && ex[i] == (s, normal_index(existing[j]));
    lemma_matching_indexes_agree(normal_index(declared[k].1), ex[i].1, false);
    lemma_each_declared_index_lands_once(declared, existing, external, k);
    assert(ex[i].0 == s && !structures_match_spec(normal_index(declared[k].1), ex[i].1, false));
}

} // verus!

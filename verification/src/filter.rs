//! Typed query filters.
use vstd::prelude::*;

use core::marker::PhantomData;

use crate::bson::{Bson, BsonV, DocV, Document, bson_view, lemma_array_view, array_view};
use crate::error::{Error, same_error};
use crate::field::{ArrayLike, Field, Filterable, Ordered, VersionField};
use crate::text::{chars_of, owned, push_char, str_eq};
use crate::version::Version;

verus! {

broadcast use vstd::string::group_string_axioms;

/// A query filter on entity `E`, or the first failure met while building it.
#[derive(Debug)]
pub struct Filter<E> {
    doc: Document,
    deferred_error: Option<Error>,
    _marker: PhantomData<E>,
}

/// `{ path: { op: value } }`.
pub open spec fn op_doc(path: Seq<char>, op: Seq<char>, value: BsonV) -> DocV {
    seq![(path, BsonV::Doc(seq![(op, value)]))]
}

/// `{ op: [d, ...] }`.
pub open spec fn combined_doc(docs: Seq<DocV>, op: Seq<char>) -> DocV {
    seq![(op, BsonV::Array(docs.map_values(|d: DocV| BsonV::Doc(d))))]
}

/// The first failure of a sequence, in order.
pub open spec fn first_error(errs: Seq<Option<Error>>) -> Option<Error>
    decreases errs.len(),
{
    if errs.len() == 0 {
        None
    } else {
        let before = first_error(errs.drop_last());
        if before is Some {
            before
        } else {
            errs.last()
        }
    }
}

/// `left` is already a combination `{ op: [ ... ] }` with at least one member.
pub open spec fn extends(left: DocV, op: Seq<char>) -> bool {
    &&& left.len() == 1
    &&& left[0].0 == op
    &&& left[0].1 is Array
    &&& left[0].1->Array_0.len() > 0
}

/// Combining `left` and `right` under `op`: `right` joins an existing
/// combination under the same operator, otherwise both become the members of
/// a new one.
pub open spec fn merged_doc(left: DocV, right: DocV, op: Seq<char>) -> DocV {
    if extends(left, op) {
        seq![(op, BsonV::Array(left[0].1->Array_0.push(BsonV::Doc(right))))]
    } else {
        combined_doc(seq![left, right], op)
    }
}

pub open spec fn and_op() -> Seq<char> {
    "$and"@
}

pub open spec fn or_op() -> Seq<char> {
    "$or"@
}

impl<E> Filter<E> {
    pub closed spec fn spec_doc(&self) -> DocV {
        self.doc@
    }

    pub closed spec fn spec_error(&self) -> Option<Error> {
        self.deferred_error
    }

    /// A filter that is exactly `doc`.
    pub fn raw(doc: Document) -> (f: Self)
        ensures
            f.spec_doc() == doc@,
            f.spec_error() is None,
    {
        Filter { doc, deferred_error: None, _marker: PhantomData }
    }

    /// The filter that matches everything.
    pub fn empty() -> (f: Self)
        ensures
            f.spec_doc() == Seq::<(Seq<char>, BsonV)>::empty(),
            f.spec_error() is None,
    {
        Filter::raw(Document::new())
    }

    /// A filter that carries a failure met while building it.
    pub fn rejected(error: Error) -> (f: Self)
        ensures
            f.spec_doc() == Seq::<(Seq<char>, BsonV)>::empty(),
            f.spec_error() == Some(error),
    {
        Filter { doc: Document::new(), deferred_error: Some(error), _marker: PhantomData }
    }

    /// Both filters hold.
    pub fn and(self, other: Filter<E>) -> (f: Filter<E>)
        ensures
            f.spec_doc() == merged_doc(self.spec_doc(), other.spec_doc(), and_op()),
            f.spec_error() == first_error(seq![self.spec_error(), other.spec_error()]),
    {
        merge_operator(self, other, "$and")
    }

    /// Either filter holds.
    pub fn or(self, other: Filter<E>) -> (f: Filter<E>)
        ensures
            f.spec_doc() == merged_doc(self.spec_doc(), other.spec_doc(), or_op()),
            f.spec_error() == first_error(seq![self.spec_error(), other.spec_error()]),
    {
        merge_operator(self, other, "$or")
    }

    /// The filter document, or the first failure met while building it.
    pub fn into_document(self) -> (r: Result<Document, Error>)
        ensures
            match self.spec_error() {
                Some(e) => r == Err::<Document, Error>(e),
                None => r matches Ok(d) && d@ == self.spec_doc(),
            },
    {
        match self.deferred_error {
            Some(error) => Err(error),
            None => Ok(self.doc),
        }
    }

    /// `{ path: { op: value } }`, or a filter carrying the failure to encode
    /// the value.
    pub fn field_op(path: &str, op: &str, value: Result<Bson, Error>) -> (f: Self)
        ensures
            match value {
                Ok(v) => f.spec_doc() == op_doc(path@, op@, v@) && f.spec_error() is None,
                Err(e) => f.spec_doc().len() == 0 && f.spec_error() == Some(e),
            },
    {
        match value {
            Ok(value) => Filter::raw(op_document(path, op, value)),
            Err(error) => Filter::rejected(error),
        }
    }

    /// A copy of the filter.
    pub fn duplicate(&self) -> (f: Self)
        ensures
            f.spec_doc() == self.spec_doc(),
            match (f.spec_error(), self.spec_error()) {
                (Some(a), Some(b)) => same_error(a, b),
                (None, None) => true,
                _ => false,
            },
    {
        Filter {
            doc: self.doc.duplicate(),
            deferred_error: match &self.deferred_error {
                Some(e) => Some(e.duplicate()),
                None => None,
            },
            _marker: PhantomData,
        }
    }
}

/// `{ path: { op: value } }`.
pub fn op_document(path: &str, op: &str, value: Bson) -> (d: Document)
    ensures
        d@ == op_doc(path@, op@, value@),
{
    let mut inner = Document::new();
    inner.insert(owned(op), value);
    let mut outer = Document::new();
    outer.insert(owned(path), Bson::Document(inner));
    assert(outer@ =~= op_doc(path@, op@, value@));
    outer
}

fn merge_operator<E>(left: Filter<E>, right: Filter<E>, op: &str) -> (f: Filter<E>)
    ensures
        f.spec_doc() == merged_doc(left.spec_doc(), right.spec_doc(), op@),
        f.spec_error() == first_error(seq![left.spec_error(), right.spec_error()]),
{
    proof {
        crate::bson::lemma_entries_view(left.doc.entries@);
    }
    let mut extendable = false;
    if left.doc.len() == 1 && str_eq(left.doc.entries[0].0.as_str(), op) {
        match &left.doc.entries[0].1 {
            Bson::Array(items) => {
                extendable = items.len() > 0;
            },
            _ => {},
        }
    }
    proof {
        lemma_first_failure_wins(left.spec_error(), right.spec_error());
    }
    if extendable {
        let ghost e0 = left.doc.entries@[0];
        proof {
            lemma_array_view(e0.1->Array_0@);
            assert(extends(left.spec_doc(), op@));
        }
        let Filter { doc, deferred_error, .. } = left;
        let mut entries = doc.entries;
        let (key, value) = entries.pop().unwrap();
        assert(key == e0.0 && value == e0.1);
        match value {
            Bson::Array(mut items) => {
                let ghost before = items@;
                items.push(Bson::Document(right.doc));
                proof {
                    lemma_array_view(items@);
                    lemma_array_view(before);
                    assert(array_view(items@) =~= array_view(before).push(BsonV::Doc(right.doc@)));
                }
                let mut out = Document::new();
                out.insert(key, Bson::Array(items));
                let err = match deferred_error {
                    Some(e) => Some(e),
                    None => right.deferred_error,
                };
                let f = Filter { doc: out, deferred_error: err, _marker: PhantomData };
                assert(array_view(items@) == left.spec_doc()[0].1->Array_0.push(BsonV::Doc(right.spec_doc())));
                assert(f.spec_doc() =~= merged_doc(left.spec_doc(), right.spec_doc(), op@));
                f
            },
            _ => {
                assert(false);
                Filter::empty()
            },
        }
    } else {
        let mut v: Vec<Filter<E>> = Vec::new();
        v.push(left);
        v.push(right);
        let f = combine(v, op);
        assert(v@.map_values(|f: Filter<E>| f.spec_doc()) =~= seq![left.spec_doc(), right.spec_doc()]);
        assert(v@.map_values(|f: Filter<E>| f.spec_error()) =~= seq![left.spec_error(), right.spec_error()]);
        f
    }
}

fn combine<E>(filters: Vec<Filter<E>>, op: &str) -> (f: Filter<E>)
    ensures
        f.spec_doc() == combined_doc(filters@.map_values(|f: Filter<E>| f.spec_doc()), op@),
        f.spec_error() == first_error(filters@.map_values(|f: Filter<E>| f.spec_error())),
{
    let ghost docs = filters@.map_values(|f: Filter<E>| f.spec_doc());
    let ghost errs = filters@.map_values(|f: Filter<E>| f.spec_error());
    let ghost n: int = filters@.len() as int;
    let mut rest = filters;
    let mut items: Vec<Bson> = Vec::new();
    let mut deferred_error: Option<Error> = None;
    while rest.len() > 0
        invariant
            n == docs.len(),
            n == errs.len(),
            rest@.len() <= n,
            forall|j: int|
                0 <= j < rest@.len() ==> #[trigger] rest@[j].spec_doc() == docs[n - rest@.len() + j]
                    && rest@[j].spec_error() == errs[n - rest@.len() + j],
            items@.len() == n - rest@.len(),
            forall|j: int|
                0 <= j < items@.len() ==> #[trigger] bson_view(items@[j]) == BsonV::Doc(docs[j]),
            deferred_error == first_error(errs.take(n - rest@.len())),
        decreases rest@.len(),
    {
        let ghost i: int = n - rest@.len();
        let ghost old_rest = rest@;
        assert(old_rest[0].spec_doc() == docs[i] && old_rest[0].spec_error() == errs[i]);
        let next = rest.remove(0);
        assert(errs.take(i + 1).drop_last() == errs.take(i));
        assert(errs[i] == next.spec_error());
        if deferred_error.is_none() {
            deferred_error = next.deferred_error;
        }
        items.push(Bson::Document(next.doc));
    }
    assert(errs.take(n) == errs);
    proof {
        lemma_array_view(items@);
        assert(array_view(items@) =~= docs.map_values(|d: DocV| BsonV::Doc(d)));
    }
    let mut doc = Document::new();
    doc.insert(owned(op), Bson::Array(items));
    let f = Filter { doc, deferred_error, _marker: PhantomData };
    assert(f.spec_doc() =~= combined_doc(docs, op@));
    f
}

/// All of the filters hold: `{ $and: [...] }`.
pub fn all<E>(filters: Vec<Filter<E>>) -> (f: Filter<E>)
    ensures
        f.spec_doc() == combined_doc(filters@.map_values(|f: Filter<E>| f.spec_doc()), and_op()),
        f.spec_error() == first_error(filters@.map_values(|f: Filter<E>| f.spec_error())),
{
    combine(filters, "$and")
}

/// Some of the filters hold: `{ $or: [...] }`.
pub fn any<E>(filters: Vec<Filter<E>>) -> (f: Filter<E>)
    ensures
        f.spec_doc() == combined_doc(filters@.map_values(|f: Filter<E>| f.spec_doc()), or_op()),
        f.spec_error() == first_error(filters@.map_values(|f: Filter<E>| f.spec_error())),
{
    combine(filters, "$or")
}

/// A text search: `{ $text: { $search: query } }`.
pub fn text<E>(query: String) -> (f: Filter<E>)
    ensures
        f.spec_doc() == op_doc("$text"@, "$search"@, BsonV::Str(query@)),
        f.spec_error() is None,
{
    Filter::raw(op_document("$text", "$search", Bson::String(query)))
}

/// Combining three filters one after the other gives the combination of all
/// three, unless the first is itself already a combination under the same
/// operator (which it would be extended instead).
pub proof fn lemma_chained_combination(a: DocV, b: DocV, c: DocV, op: Seq<char>)
    requires
        !extends(a, op),
    ensures
        merged_doc(merged_doc(a, b, op), c, op) == combined_doc(seq![a, b, c], op),
{
    let ab = merged_doc(a, b, op);
    assert(seq![a, b].map_values(|d: DocV| BsonV::Doc(d)) =~= seq![BsonV::Doc(a), BsonV::Doc(b)]);
    assert(extends(ab, op));
    assert(seq![a, b, c].map_values(|d: DocV| BsonV::Doc(d)) =~= seq![BsonV::Doc(a), BsonV::Doc(b), BsonV::Doc(c)]);
    assert(seq![BsonV::Doc(a), BsonV::Doc(b)].push(BsonV::Doc(c)) =~= seq![BsonV::Doc(a), BsonV::Doc(b), BsonV::Doc(c)]);
    assert(merged_doc(ab, c, op) =~= combined_doc(seq![a, b, c], op));
}

/// The first failure met wins: combining keeps the earlier filter's failure.
pub proof fn lemma_first_failure_wins(a: Option<Error>, b: Option<Error>)
    ensures
        a is Some ==> first_error(seq![a, b]) == a,
        a is None ==> first_error(seq![a, b]) == b,
{
    reveal_with_fuel(first_error, 3);
    assert(seq![a, b].drop_last() == seq![a]);
    assert(seq![a].drop_last() == Seq::<Option<Error>>::empty());
}

/// The regex operators, which a literal prefix must escape.
pub open spec fn is_regex_meta(c: char) -> bool {
    c == '\\' || c == '.' || c == '^' || c == '$' || c == '|' || c == '?' || c == '*' || c == '+'
        || c == '(' || c == ')' || c == '[' || c == ']' || c == '{' || c == '}'
}

/// `s` with a backslash before each regex operator.
pub open spec fn escaped(s: Seq<char>) -> Seq<char>
    decreases s.len(),
{
    if s.len() == 0 {
        Seq::empty()
    } else if is_regex_meta(s.last()) {
        escaped(s.drop_last()).push('\\').push(s.last())
    } else {
        escaped(s.drop_last()).push(s.last())
    }
}

/// The regex that matches strings starting with `prefix` literally.
pub fn prefix_pattern(prefix: &str) -> (p: String)
    ensures
        p@ == seq!['^'] + escaped(prefix@),
        p@.len() > 0 && p@[0] == '^',
        reads_literally(p@.drop_first(), prefix@),
{
    proof {
        lemma_prefix_pattern_is_literal(prefix@);
    }
    let cs = chars_of(prefix);
    let mut pattern = String::new();
    push_char(&mut pattern, '^');
    let mut i: usize = 0;
    while i < cs.len()
        invariant
            i <= cs@.len(),
            cs@ == prefix@,
            pattern@ == seq!['^'] + escaped(cs@.take(i as int)),
        decreases cs.len() - i,
    {
        let ch = cs[i];
        assert(cs@.take(i + 1).drop_last() == cs@.take(i as int));
        let meta = ch == '\\' || ch == '.' || ch == '^' || ch == '$' || ch == '|' || ch == '?'
            || ch == '*' || ch == '+' || ch == '(' || ch == ')' || ch == '[' || ch == ']'
            || ch == '{' || ch == '}';
        if meta {
            push_char(&mut pattern, '\\');
        }
        push_char(&mut pattern, ch);
        i = i + 1;
    }
    assert(cs@.take(i as int) == cs@);
    pattern
}

/// The characters that are operators in a regex: `\ . ^ $ | ? * + ( ) [ ] { }`.
pub open spec fn regex_operators() -> Seq<char> {
    seq!['\\', '.', '^', '$', '|', '?', '*', '+', '(', ')', '[', ']', '{', '}']
}

/// Regex text `r` reads as the literal text `t`: each character stands for
/// itself, except that a backslash takes the next character, an operator,
/// literally; an operator never stands bare, and nothing else is escaped.
pub open spec fn reads_literally(r: Seq<char>, t: Seq<char>) -> bool
    decreases r.len(),
{
    if r.len() == 0 {
        t.len() == 0
    } else if r[0] == '\\' {
        r.len() >= 2 && regex_operators().contains(r[1]) && t.len() >= 1 && t[0] == r[1] && reads_literally(
            r.skip(2),
            t.drop_first(),
        )
    } else {
        !regex_operators().contains(r[0]) && t.len() >= 1 && t[0] == r[0] && reads_literally(
            r.drop_first(),
            t.drop_first(),
        )
    }
}

proof fn lemma_reads_literally_concat(a: Seq<char>, x: Seq<char>, b: Seq<char>, y: Seq<char>)
    requires
        reads_literally(a, x),
        reads_literally(b, y),
    ensures
        reads_literally(a + b, x + y),
    decreases a.len(),
{
    if a.len() == 0 {
        assert(x.len() == 0);
        assert(a + b =~= b);
        assert(x + y =~= y);
    } else if a[0] == '\\' {
        lemma_reads_literally_concat(a.skip(2), x.drop_first(), b, y);
        assert((a + b).skip(2) =~= a.skip(2) + b);
        assert((x + y).drop_first() =~= x.drop_first() + y);
        assert((a + b)[0] == a[0] && (a + b)[1] == a[1] && (x + y)[0] == x[0]);
    } else {
        lemma_reads_literally_concat(a.drop_first(), x.drop_first(), b, y);
        assert((a + b).drop_first() =~= a.drop_first() + b);
        assert((x + y).drop_first() =~= x.drop_first() + y);
        assert((a + b)[0] == a[0] && (x + y)[0] == x[0]);
    }
}

proof fn lemma_escaped_reads_literally(s: Seq<char>)
    ensures
        reads_literally(escaped(s), s),
    decreases s.len(),
{
    if s.len() > 0 {
        let c = s.last();
        lemma_escaped_reads_literally(s.drop_last());
        let piece = if is_regex_meta(c) { seq!['\\', c] } else { seq![c] };
        if is_regex_meta(c) {
            let ops = regex_operators();
            assert(ops.contains(c)) by {
                if c == '\\' { assert(ops[0] == c); }
                else if c == '.' { assert(ops[1] == c); }
                else if c == '^' { assert(ops[2] == c); }
                else if c == '$' { assert(ops[3] == c); }
                else if c == '|' { assert(ops[4] == c); }
                else if c == '?' { assert(ops[5] == c); }
                else if c == '*' { assert(ops[6] == c); }
                else if c == '+' { assert(ops[7] == c); }
                else if c == '(' { assert(ops[8] == c); }
                else if c == ')' { assert(ops[9] == c); }
                else if c == '[' { assert(ops[10] == c); }
                else if c == ']' { assert(ops[11] == c); }
                else if c == '{' { assert(ops[12] == c); }
                else { assert(ops[13] == c); }
            }
            assert(piece.skip(2) =~= Seq::<char>::empty());
            assert(seq![c].drop_first() =~= Seq::<char>::empty());
            assert(reads_literally(Seq::<char>::empty(), Seq::<char>::empty()));
        } else {
            let ops = regex_operators();
            assert forall|i: int| 0 <= i < ops.len() implies ops[i] != c by {}
            assert(!ops.contains(c));
            assert(piece.drop_first() =~= Seq::<char>::empty());
            assert(seq![c].drop_first() =~= Seq::<char>::empty());
            assert(reads_literally(Seq::<char>::empty(), Seq::<char>::empty()));
        }
        assert(reads_literally(piece, seq![c]));
        lemma_reads_literally_concat(escaped(s.drop_last()), s.drop_last(), piece, seq![c]);
        assert(escaped(s) =~= escaped(s.drop_last()) + piece);
        assert(s.drop_last() + seq![c] =~= s);
    }
}

/// A prefix pattern is `^` followed by regex text that reads as the prefix
/// literally: every regex operator in the prefix is escaped, so the pattern
/// matches exactly the strings that start with the prefix.
pub proof fn lemma_prefix_pattern_is_literal(prefix: Seq<char>)
    ensures
        (seq!['^'] + escaped(prefix))[0] == '^',
        reads_literally((seq!['^'] + escaped(prefix)).drop_first(), prefix),
{
    lemma_escaped_reads_literally(prefix);
    assert((seq!['^'] + escaped(prefix)).drop_first() =~= escaped(prefix));
}

/// The regex operators' text, for callers that escape by other means.
pub open spec fn regex_meta_chars() -> Seq<char> {
    "\\.^$|?*+()[]{}"@
}

impl<E, T, C: Filterable, X> Field<E, T, C, X> {
    /// `{ path: { op: value } }` on this field.
    pub fn filter_op(self, op: &str, value: Result<Bson, Error>) -> (f: Filter<E>)
        ensures
            match value {
                Ok(v) => f.spec_doc() == op_doc(self.spec_path(), op@, v@) && f.spec_error() is None,
                Err(e) => f.spec_doc().len() == 0 && f.spec_error() == Some(e),
            },
    {
        Filter::field_op(self.path(), op, value)
    }

    /// The field is present, or absent.
    pub fn field_exists(self, exists: bool) -> (f: Filter<E>)
        ensures
            f.spec_doc() == op_doc(self.spec_path(), "$exists"@, BsonV::Boolean(exists)),
            f.spec_error() is None,
    {
        self.filter_op("$exists", Ok(Bson::Boolean(exists)))
    }

    /// The field equals `value`.
    pub fn eq(self, value: Bson) -> (f: Filter<E>)
        ensures
            f.spec_doc() == op_doc(self.spec_path(), "$eq"@, value@),
            f.spec_error() is None,
    {
        self.filter_op("$eq", Ok(value))
    }

    /// The field differs from `value`.
    pub fn ne(self, value: Bson) -> (f: Filter<E>)
        ensures
            f.spec_doc() == op_doc(self.spec_path(), "$ne"@, value@),
            f.spec_error() is None,
    {
        self.filter_op("$ne", Ok(value))
    }

    /// The field equals one of `values`.
    pub fn is_in(self, values: Vec<Bson>) -> (f: Filter<E>)
        ensures
            f.spec_doc() == op_doc(self.spec_path(), "$in"@, BsonV::Array(array_view(values@))),
            f.spec_error() is None,
    {
        self.filter_op("$in", Ok(Bson::Array(values)))
    }

    /// The field equals none of `values`.
    pub fn not_in(self, values: Vec<Bson>) -> (f: Filter<E>)
        ensures
            f.spec_doc() == op_doc(self.spec_path(), "$nin"@, BsonV::Array(array_view(values@))),
            f.spec_error() is None,
    {
        self.filter_op("$nin", Ok(Bson::Array(values)))
    }

}

impl<E, T: Ordered, C: Filterable, X> Field<E, T, C, X> {
    /// The field sorts after `value`.
    pub fn gt(self, value: Bson) -> (f: Filter<E>)
        ensures
            f.spec_doc() == op_doc(self.spec_path(), "$gt"@, value@),
            f.spec_error() is None,
    {
        self.filter_op("$gt", Ok(value))
    }

    /// The field sorts after `value` or equals it.
    pub fn gte(self, value: Bson) -> (f: Filter<E>)
        ensures
            f.spec_doc() == op_doc(self.spec_path(), "$gte"@, value@),
            f.spec_error() is None,
    {
        self.filter_op("$gte", Ok(value))
    }

    /// The field sorts before `value`.
    pub fn lt(self, value: Bson) -> (f: Filter<E>)
        ensures
            f.spec_doc() == op_doc(self.spec_path(), "$lt"@, value@),
            f.spec_error() is None,
    {
        self.filter_op("$lt", Ok(value))
    }

    /// The field sorts before `value` or equals it.
    pub fn lte(self, value: Bson) -> (f: Filter<E>)
        ensures
            f.spec_doc() == op_doc(self.spec_path(), "$lte"@, value@),
            f.spec_error() is None,
    {
        self.filter_op("$lte", Ok(value))
    }
}

impl<E, T, C: Filterable, X> Field<E, Option<T>, C, X> {
    /// The optional field is null or absent.
    pub fn is_null(self) -> (f: Filter<E>)
        ensures
            f.spec_doc() == op_doc(self.spec_path(), "$eq"@, BsonV::Null),
            f.spec_error() is None,
    {
        self.filter_op("$eq", Ok(Bson::Null))
    }
}

/// Field types stored as strings.
pub trait Textual {}

impl Textual for String {}

impl Textual for Option<String> {}

impl<E, T: Textual, C: Filterable> Field<E, T, C> {
    /// The field matches the regular expression `pattern`.
    pub fn regex(self, pattern: String) -> (f: Filter<E>)
        ensures
            f.spec_doc() == op_doc(self.spec_path(), "$regex"@, BsonV::Str(pattern@)),
            f.spec_error() is None,
    {
        self.filter_op("$regex", Ok(Bson::String(pattern)))
    }

    /// The field starts with `prefix`, taken literally.
    pub fn starts_with(self, prefix: &str) -> (f: Filter<E>)
        ensures
            f.spec_doc() == op_doc(
                self.spec_path(),
                "$regex"@,
                BsonV::Str(seq!['^'] + escaped(prefix@)),
            ),
            f.spec_error() is None,
    {
        self.regex(prefix_pattern(prefix))
    }
}

impl<E, A: ArrayLike, C: Filterable> Field<E, A, C> {
    /// The array holds `value`.
    pub fn contains(self, value: Bson) -> (f: Filter<E>)
        ensures
            f.spec_doc() == op_doc(self.spec_path(), "$eq"@, value@),
            f.spec_error() is None,
    {
        self.filter_op("$eq", Ok(value))
    }

    /// The array holds one of `values`.
    pub fn contains_any(self, values: Vec<Bson>) -> (f: Filter<E>)
        ensures
            f.spec_doc() == op_doc(self.spec_path(), "$in"@, BsonV::Array(array_view(values@))),
            f.spec_error() is None,
    {
        self.filter_op("$in", Ok(Bson::Array(values)))
    }

    /// The array holds none of `values`.
    pub fn contains_none(self, values: Vec<Bson>) -> (f: Filter<E>)
        ensures
            f.spec_doc() == op_doc(self.spec_path(), "$nin"@, BsonV::Array(array_view(values@))),
            f.spec_error() is None,
    {
        self.filter_op("$nin", Ok(Bson::Array(values)))
    }

    /// The array has `len` elements.
    pub fn size(self, len: u32) -> (f: Filter<E>)
        ensures
            f.spec_doc() == op_doc(self.spec_path(), "$size"@, BsonV::Int64(len as i64)),
            f.spec_error() is None,
    {
        self.filter_op("$size", Ok(Bson::Int64(len as i64)))
    }
}

impl<E> VersionField<E> {
    /// The stored lock equals `version`.
    pub fn eq(self, version: Version) -> (f: Filter<E>)
        ensures
            f.spec_doc() == op_doc(self.spec_path(), "$eq"@, BsonV::Int64(version.spec_value())),
            f.spec_error() is None,
    {
        Filter::field_op(self.path(), "$eq", Ok(Bson::Int64(version.value())))
    }
}

} // verus!

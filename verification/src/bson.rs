//! The document model: BSON values and ordered documents, as plain values.
use vstd::prelude::*;

use crate::text::str_eq;

verus! {

/// A stored double, carried as its IEEE-754 bit pattern together with the
/// facts about its value that the store's logic reads: the value truncated
/// toward zero and saturated to `i64` (`value as i64`), whether the value is a
/// whole number (`value.fract() == 0.0`), and whether it lies in
/// `[-2^63, 2^63)`.
#[derive(Clone, Copy, Debug, PartialEq)]
pub struct Float {
    pub bits: u64,
    pub truncated: i64,
    pub integral: bool,
    pub in_i64_range: bool,
}

/// A BSON value.  Kinds that the store never inspects (object ids, dates,
/// binaries, ...) are carried as `Other` with their canonical text.
#[derive(Debug, PartialEq)]
pub enum Bson {
    Null,
    Boolean(bool),
    Int32(i32),
    Int64(i64),
    Double(Float),
    String(String),
    Array(Vec<Bson>),
    Document(Document),
    Other(String),
}

/// An ordered document: a list of key / value entries.  `insert` replaces the
/// value of an existing key in place and appends a new key at the end;
/// `remove` takes the key out and keeps the order of the rest.
#[derive(Debug, PartialEq)]
pub struct Document {
    pub entries: Vec<(String, Bson)>,
}

/// The mathematical value of a BSON value.
pub enum BsonV {
    Null,
    Boolean(bool),
    Int32(i32),
    Int64(i64),
    Double(Float),
    Str(Seq<char>),
    Array(Seq<BsonV>),
    Doc(Seq<(Seq<char>, BsonV)>),
    Other(Seq<char>),
}

/// The mathematical value of a document: its entries in order.
pub type DocV = Seq<(Seq<char>, BsonV)>;

pub open spec fn array_view(s: Seq<Bson>) -> Seq<BsonV>
    decreases s,
{
    if s.len() == 0 {
        Seq::empty()
    } else {
        array_view(s.drop_last()).push(bson_view(s.last()))
    }
}

pub open spec fn entries_view(s: Seq<(String, Bson)>) -> DocV
    decreases s,
{
    if s.len() == 0 {
        Seq::empty()
    } else {
        entries_view(s.drop_last()).push((s.last().0@, bson_view(s.last().1)))
    }
}

pub open spec fn bson_view(b: Bson) -> BsonV
    decreases b,
{
    match b {
        Bson::Null => BsonV::Null,
        Bson::Boolean(x) => BsonV::Boolean(x),
        Bson::Int32(x) => BsonV::Int32(x),
        Bson::Int64(x) => BsonV::Int64(x),
        Bson::Double(f) => BsonV::Double(f),
        Bson::String(s) => BsonV::Str(s@),
        Bson::Array(items) => BsonV::Array(array_view(items@)),
        Bson::Document(d) => BsonV::Doc(entries_view(d.entries@)),
        Bson::Other(s) => BsonV::Other(s@),
    }
}

impl View for Bson {
    type V = BsonV;

    open spec fn view(&self) -> BsonV {
        bson_view(*self)
    }
}

impl View for Document {
    type V = DocV;

    open spec fn view(&self) -> DocV {
        entries_view(self.entries@)
    }
}


/// `i` is the first position of key `k` in `d`.
pub open spec fn is_first_key(d: DocV, k: Seq<char>, i: int) -> bool {
    &&& 0 <= i < d.len()
    &&& d[i].0 == k
    &&& forall|j: int| 0 <= j < i ==> d[j].0 != k
}

pub open spec fn has_key(d: DocV, k: Seq<char>) -> bool {
    exists|i: int| 0 <= i < d.len() && d[i].0 == k
}

pub open spec fn first_key(d: DocV, k: Seq<char>) -> int {
    choose|i: int| is_first_key(d, k, i)
}

/// The value stored under `k`, if any.
pub open spec fn doc_get(d: DocV, k: Seq<char>) -> Option<BsonV> {
    if has_key(d, k) {
        Some(d[first_key(d, k)].1)
    } else {
        None
    }
}

/// `d` after `insert(k, v)`: an existing key keeps its place and takes the new
/// value; a new key goes at the end.
pub open spec fn doc_insert(d: DocV, k: Seq<char>, v: BsonV) -> DocV {
    if has_key(d, k) {
        d.update(first_key(d, k), (k, v))
    } else {
        d.push((k, v))
    }
}

/// `d` after `remove(k)`: the entry leaves, the rest keep their order.
pub open spec fn doc_remove(d: DocV, k: Seq<char>) -> DocV {
    if has_key(d, k) {
        d.remove(first_key(d, k))
    } else {
        d
    }
}

/// No key occurs twice.
pub open spec fn distinct_keys(d: DocV) -> bool {
    forall|i: int, j: int| 0 <= i < d.len() && 0 <= j < d.len() && i != j ==> d[i].0 != d[j].0
}

pub proof fn lemma_first_key(d: DocV, k: Seq<char>, i: int)
    requires
        0 <= i < d.len(),
        d[i].0 == k,
    ensures
        is_first_key(d, k, first_key(d, k)),
        first_key(d, k) <= i,
    decreases i,
{
    if exists|j: int| 0 <= j < i && d[j].0 == k {
        let j = choose|j: int| 0 <= j < i && d[j].0 == k;
        lemma_first_key(d, k, j);
    } else {
        assert(is_first_key(d, k, i));
    }
}

pub proof fn lemma_first_key_unique(d: DocV, k: Seq<char>, i: int)
    requires
        is_first_key(d, k, i),
    ensures
        first_key(d, k) == i,
{
    lemma_first_key(d, k, i);
    let f = first_key(d, k);
    if f < i {
        assert(d[f].0 != k);
    }
}

pub proof fn lemma_array_view(s: Seq<Bson>)
    ensures
        array_view(s).len() == s.len(),
        forall|i: int| 0 <= i < s.len() ==> #[trigger] array_view(s)[i] == bson_view(s[i]),
    decreases s.len(),
{
    if s.len() > 0 {
        lemma_array_view(s.drop_last());
    }
}

pub proof fn lemma_entries_view(s: Seq<(String, Bson)>)
    ensures
        entries_view(s).len() == s.len(),
        forall|i: int|
            0 <= i < s.len() ==> #[trigger] entries_view(s)[i] == (s[i].0@, bson_view(s[i].1)),
    decreases s.len(),
{
    if s.len() > 0 {
        lemma_entries_view(s.drop_last());
    }
}

pub proof fn lemma_entries_view_push(s: Seq<(String, Bson)>, x: (String, Bson))
    ensures
        entries_view(s.push(x)) == entries_view(s).push((x.0@, bson_view(x.1))),
{
    assert(s.push(x).drop_last() == s);
}

pub proof fn lemma_array_view_push(s: Seq<Bson>, x: Bson)
    ensures
        array_view(s.push(x)) == array_view(s).push(bson_view(x)),
{
    assert(s.push(x).drop_last() == s);
}

impl Document {
    /// An empty document.
    pub fn new() -> (d: Document)
        ensures
            d@ == Seq::<(Seq<char>, BsonV)>::empty(),
    {
        Document { entries: Vec::new() }
    }

    pub fn len(&self) -> (n: usize)
        ensures
            n == self@.len(),
    {
        proof {
            lemma_entries_view(self.entries@);
        }
        self.entries.len()
    }

    pub fn is_empty(&self) -> (b: bool)
        ensures
            b == (self@.len() == 0),
    {
        self.len() == 0
    }

    /// The position of `key`, if the document holds it.
    pub fn position(&self, key: &str) -> (r: Option<usize>)
        ensures
            match r {
                Some(i) => is_first_key(self@, key@, i as int) && first_key(self@, key@) == i,
                None => !has_key(self@, key@),
            },
    {
        proof {
            lemma_entries_view(self.entries@);
        }
        let mut i: usize = 0;
        while i < self.entries.len()
            invariant
                i <= self.entries.len(),
                entries_view(self.entries@).len() == self.entries@.len(),
                forall|j: int| 0 <= j < i ==> #[trigger] self@[j].0 != key@,
                forall|j: int|
                    0 <= j < self.entries@.len() ==> #[trigger] entries_view(self.entries@)[j]
                        == (self.entries@[j].0@, bson_view(self.entries@[j].1)),
            decreases self.entries.len() - i,
        {
            if str_eq(self.entries[i].0.as_str(), key) {
                proof {
                    lemma_first_key_unique(self@, key@, i as int);
                }
                return Some(i);
            }
            i = i + 1;
        }
        None
    }

    pub fn contains_key(&self, key: &str) -> (b: bool)
        ensures
            b == has_key(self@, key@),
    {
        self.position(key).is_some()
    }

    /// The value stored under `key`.
    pub fn get(&self, key: &str) -> (r: Option<&Bson>)
        ensures
            r matches Some(b) ==> doc_get(self@, key@) == Some(b@),
            r is None ==> doc_get(self@, key@) is None,
    {
        proof {
            lemma_entries_view(self.entries@);
        }
        match self.position(key) {
            Some(i) => Some(&self.entries[i].1),
            None => None,
        }
    }

    /// The entries in order.
    pub fn entries(&self) -> (r: &Vec<(String, Bson)>)
        ensures
            entries_view(r@) == self@,
    {
        &self.entries
    }

    /// The entries in order, taken out of the document.
    pub fn into_entries(self) -> (r: Vec<(String, Bson)>)
        ensures
            entries_view(r@) == self@,
    {
        self.entries
    }

    /// Stores `value` under `key`: in place when the key is present, at the end
    /// otherwise.
    pub fn insert(&mut self, key: String, value: Bson)
        ensures
            final(self)@ == doc_insert(old(self)@, key@, value@),
    {
        proof {
            lemma_entries_view(self.entries@);
        }
        let ghost kv = key@;
        let ghost vv = value@;
        match self.position(key.as_str()) {
            Some(i) => {
                self.entries.set(i, (key, value));
                proof {
                    lemma_entries_view(self.entries@);
                    assert(self@ =~= doc_insert(old(self)@, kv, vv));
                }
            },
            None => {
                self.entries.push((key, value));
                proof {
                    lemma_entries_view(self.entries@);
                    assert(self@ =~= doc_insert(old(self)@, kv, vv));
                }
            },
        }
    }

    /// Takes `key` out of the document and returns its value.
    pub fn remove(&mut self, key: &str) -> (r: Option<Bson>)
        ensures
            final(self)@ == doc_remove(old(self)@, key@),
            r matches Some(b) ==> doc_get(old(self)@, key@) == Some(b@),
            r is None ==> doc_get(old(self)@, key@) is None,
    {
        proof {
            lemma_entries_view(self.entries@);
        }
        match self.position(key) {
            Some(i) => {
                let (_, v) = self.entries.remove(i);
                proof {
                    lemma_entries_view(self.entries@);
                    assert(self@ =~= doc_remove(old(self)@, key@));
                }
                Some(v)
            },
            None => None,
        }
    }

    /// A document built by inserting the entries in order.
    pub fn from_entries(entries: Vec<(String, Bson)>) -> (d: Document)
        ensures
            d@ == doc_from(entries_view(entries@)),
    {
        let mut d = Document::new();
        let mut rest = entries;
        proof {
            lemma_entries_view(entries@);
        }
        let ghost all = entries_view(entries@);
        let ghost n: int = all.len() as int;
        while rest.len() > 0
            invariant
                rest@.len() <= n,
                n == all.len(),
                d@ == doc_from(all.take(n - rest@.len())),
                forall|j: int|
                    0 <= j < rest@.len() ==> (rest@[j].0@, bson_view(rest@[j].1)) == all[n
                        - rest@.len() + j],
            decreases rest@.len(),
        {
            let ghost i = n - rest@.len();
            let (k, v) = rest.remove(0);
            assert(all.take(i + 1).drop_last() == all.take(i));
            assert(all[i] == (k@, v@));
            d.insert(k, v);
        }
        let ghost i: int = n;
        assert(all.take(i) == all);
        d
    }
}

impl Bson {
    /// A deep copy.
    pub fn duplicate(&self) -> (r: Bson)
        ensures
            r@ == self@,
        decreases self,
    {
        match self {
            Bson::Null => Bson::Null,
            Bson::Boolean(b) => Bson::Boolean(*b),
            Bson::Int32(x) => Bson::Int32(*x),
            Bson::Int64(x) => Bson::Int64(*x),
            Bson::Double(f) => Bson::Double(*f),
            Bson::String(s) => Bson::String(s.clone()),
            Bson::Other(s) => Bson::Other(s.clone()),
            Bson::Array(items) => {
                let mut out: Vec<Bson> = Vec::new();
                let mut i: usize = 0;
                proof {
                    lemma_array_view(items@);
                }
                while i < items.len()
                    invariant
                        *self == Bson::Array(*items),
                        i <= items.len(),
                        array_view(items@).len() == items@.len(),
                        forall|j: int| 0 <= j < items@.len() ==> #[trigger] array_view(items@)[j] == bson_view(items@[j]),
                        out@.len() == i,
                        forall|j: int| 0 <= j < i ==> #[trigger] bson_view(out@[j]) == bson_view(items@[j]),
                    decreases items.len() - i,
                {
                    proof {
                        assert(decreases_to!(*self => (*self)->Array_0));
                        assert(decreases_to!(*items => items@));
                        assert(decreases_to!(items@ => items@[i as int]));
                    }
                    let c = items[i].duplicate();
                    out.push(c);
                    i = i + 1;
                }
                proof {
                    lemma_array_view(out@);
                    assert(array_view(out@) =~= array_view(items@));
                }
                Bson::Array(out)
            },
            Bson::Document(d) => {
                let mut out: Vec<(String, Bson)> = Vec::new();
                let mut i: usize = 0;
                proof {
                    lemma_entries_view(d.entries@);
                }
                while i < d.entries.len()
                    invariant
                        *self == Bson::Document(*d),
                        i <= d.entries.len(),
                        entries_view(d.entries@).len() == d.entries@.len(),
                        forall|j: int| 0 <= j < d.entries@.len() ==> #[trigger] entries_view(d.entries@)[j] == (d.entries@[j].0@, bson_view(d.entries@[j].1)),
                        out@.len() == i,
                        forall|j: int| 0 <= j < i ==> #[trigger] out@[j].0@ == d.entries@[j].0@ && bson_view(out@[j].1) == bson_view(d.entries@[j].1),
                    decreases d.entries.len() - i,
                {
                    proof {
                        let e = d.entries@[i as int];
                        assert(decreases_to!(*self => (*self)->Document_0));
                        assert(decreases_to!(*d => d.entries));
                        assert(decreases_to!(d.entries => d.entries@));
                        assert(decreases_to!(d.entries@ => e));
                        assert(decreases_to!(e => e.1));
                    }
                    let c = d.entries[i].1.duplicate();
                    let k = d.entries[i].0.clone();
                    out.push((k, c));
                    i = i + 1;
                }
                proof {
                    lemma_entries_view(out@);
                    assert(entries_view(out@) =~= entries_view(d.entries@));
                }
                Bson::Document(Document { entries: out })
            },
        }
    }
}

impl Document {
    /// A deep copy.
    pub fn duplicate(&self) -> (r: Document)
        ensures
            r@ == self@,
    {
        let b = Bson::Document(Document { entries: Vec::new() });
        let mut out: Vec<(String, Bson)> = Vec::new();
        let mut i: usize = 0;
        proof {
            lemma_entries_view(self.entries@);
        }
        while i < self.entries.len()
            invariant
                i <= self.entries.len(),
                entries_view(self.entries@).len() == self.entries@.len(),
                forall|j: int| 0 <= j < self.entries@.len() ==> #[trigger] entries_view(self.entries@)[j] == (self.entries@[j].0@, bson_view(self.entries@[j].1)),
                out@.len() == i,
                forall|j: int| 0 <= j < i ==> #[trigger] out@[j].0@ == self.entries@[j].0@ && bson_view(out@[j].1) == bson_view(self.entries@[j].1),
            decreases self.entries.len() - i,
        {
            let c = self.entries[i].1.duplicate();
            let k = self.entries[i].0.clone();
            out.push((k, c));
            i = i + 1;
        }
        proof {
            lemma_entries_view(out@);
            assert(entries_view(out@) =~= entries_view(self.entries@));
        }
        Document { entries: out }
    }
}

/// Inserting the entries of `s` in order into an empty document.
pub open spec fn doc_from(s: DocV) -> DocV
    decreases s.len(),
{
    if s.len() == 0 {
        Seq::empty()
    } else {
        doc_insert(doc_from(s.drop_last()), s.last().0, s.last().1)
    }
}

} // verus!

//! Declared indexes: their keys and options, and the index model they render to.
use vstd::prelude::*;

use core::marker::PhantomData;

use crate::bson::{
    Bson, BsonV, DocV, Document, Float, bson_view, doc_from, entries_view, lemma_entries_view,
    lemma_array_view, array_view,
};
use crate::text::owned;

verus! {

broadcast use vstd::string::group_string_axioms;

/// A BSON value written as constant data.
#[derive(Debug)]
pub enum ConstBson {
    Null,
    Bool(bool),
    I64(i64),
    F64(Float),
    Str(&'static str),
    Arr(Vec<ConstBson>),
    Doc(Vec<(&'static str, ConstBson)>),
}

pub open spec fn const_arr_view(s: Seq<ConstBson>) -> Seq<BsonV>
    decreases s,
{
    if s.len() == 0 {
        Seq::empty()
    } else {
        const_arr_view(s.drop_last()).push(const_view(s.last()))
    }
}

pub open spec fn const_doc_view(s: Seq<(&'static str, ConstBson)>) -> DocV
    decreases s,
{
    if s.len() == 0 {
        Seq::empty()
    } else {
        const_doc_view(s.drop_last()).push((s.last().0@, const_view(s.last().1)))
    }
}

/// The BSON value a constant stands for.  A constant document becomes a
/// document built by inserting its entries in order.
pub open spec fn const_view(c: ConstBson) -> BsonV
    decreases c,
{
    match c {
        ConstBson::Null => BsonV::Null,
        ConstBson::Bool(b) => BsonV::Boolean(b),
        ConstBson::I64(i) => BsonV::Int64(i),
        ConstBson::F64(f) => BsonV::Double(f),
        ConstBson::Str(s) => BsonV::Str(s@),
        ConstBson::Arr(items) => BsonV::Array(const_arr_view(items@)),
        ConstBson::Doc(entries) => BsonV::Doc(doc_from(const_doc_view(entries@))),
    }
}

pub proof fn lemma_const_arr_view(s: Seq<ConstBson>)
    ensures
        const_arr_view(s).len() == s.len(),
        forall|i: int| 0 <= i < s.len() ==> #[trigger] const_arr_view(s)[i] == const_view(s[i]),
    decreases s.len(),
{
    if s.len() > 0 {
        lemma_const_arr_view(s.drop_last());
    }
}

pub proof fn lemma_const_doc_view(s: Seq<(&'static str, ConstBson)>)
    ensures
        const_doc_view(s).len() == s.len(),
        forall|i: int|
            0 <= i < s.len() ==> #[trigger] const_doc_view(s)[i] == (s[i].0@, const_view(s[i].1)),
    decreases s.len(),
{
    if s.len() > 0 {
        lemma_const_doc_view(s.drop_last());
    }
}

impl ConstBson {
    /// The BSON value this constant stands for.
    pub fn to_bson(&self) -> (b: Bson)
        ensures
            b@ == const_view(*self),
        decreases self,
    {
        match self {
            ConstBson::Null => Bson::Null,
            ConstBson::Bool(b) => Bson::Boolean(*b),
            ConstBson::I64(i) => Bson::Int64(*i),
            ConstBson::F64(f) => Bson::Double(*f),
            ConstBson::Str(s) => Bson::String(owned(s)),
            ConstBson::Arr(items) => {
                let mut out: Vec<Bson> = Vec::new();
                let mut i: usize = 0;
                proof {
                    lemma_const_arr_view(items@);
                }
                while i < items.len()
                    invariant
                        *self == ConstBson::Arr(*items),
                        i <= items@.len(),
                        const_arr_view(items@).len() == items@.len(),
                        forall|j: int|
                            0 <= j < items@.len() ==> #[trigger] const_arr_view(items@)[j]
                                == const_view(items@[j]),
                        out@.len() == i,
                        forall|j: int| 0 <= j < i ==> #[trigger] bson_view(out@[j]) == const_view(items@[j]),
                    decreases items.len() - i,
                {
                    proof {
                        assert(decreases_to!(*self => (*self)->Arr_0));
                        assert(decreases_to!((*self)->Arr_0 => items@));
                        assert(decreases_to!(items@ => items@[i as int]));
                    }
                    let b = items[i].to_bson();
                    out.push(b);
                    i = i + 1;
                }
                proof {
                    lemma_array_view(out@);
                    assert(array_view(out@) =~= const_arr_view(items@));
                }
                Bson::Array(out)
            },
            ConstBson::Doc(entries) => {
                let mut d = Document::new();
                let mut i: usize = 0;
                proof {
                    lemma_const_doc_view(entries@);
                }
                let ghost all = const_doc_view(entries@);
                while i < entries.len()
                    invariant
                        *self == ConstBson::Doc(*entries),
                        i <= entries@.len(),
                        all == const_doc_view(entries@),
                        all.len() == entries@.len(),
                        forall|j: int|
                            0 <= j < entries@.len() ==> #[trigger] all[j] == (
                                entries@[j].0@,
                                const_view(entries@[j].1),
                            ),
                        d@ == doc_from(all.take(i as int)),
                    decreases entries.len() - i,
                {
                    proof {
                        let e = entries@[i as int];
                        assert(decreases_to!(*self => (*self)->Doc_0));
                        assert(decreases_to!((*self)->Doc_0 => entries@));
                        assert(decreases_to!(entries@ => e));
                        assert(decreases_to!(e => e.1));
                    }
                    let (k, c) = &entries[i];
                    let b = c.to_bson();
                    assert(all.take(i + 1).drop_last() == all.take(i as int));
                    d.insert(owned(k), b);
                    i = i + 1;
                }
                assert(all.take(i as int) == all);
                Bson::Document(d)
            },
        }
    }

    /// The document this constant stands for, if it is one.
    pub fn to_document(&self) -> (r: Option<Document>)
        ensures
            match const_view(*self) {
                BsonV::Doc(d) => r matches Some(x) && x@ == d,
                _ => r is None,
            },
    {
        match self.to_bson() {
            Bson::Document(d) => Some(d),
            _ => None,
        }
    }
}


/// The kind of one index key.
#[derive(Clone, Copy, Debug, PartialEq, Eq, Structural)]
pub enum KeyKind {
    Asc,
    Desc,
    Text,
    Hashed,
    TwoDSphere,
    TwoD,
    Wildcard,
}

/// How the server spells a key kind.
pub open spec fn key_kind_view(k: KeyKind) -> BsonV {
    match k {
        KeyKind::Asc => BsonV::Int32(1),
        KeyKind::Wildcard => BsonV::Int32(1),
        KeyKind::Desc => BsonV::Int32(-1i32),
        KeyKind::Text => BsonV::Str("text"@),
        KeyKind::Hashed => BsonV::Str("hashed"@),
        KeyKind::TwoDSphere => BsonV::Str("2dsphere"@),
        KeyKind::TwoD => BsonV::Str("2d"@),
    }
}

impl KeyKind {
    pub fn to_bson(self) -> (b: Bson)
        ensures
            b@ == key_kind_view(self),
    {
        match self {
            KeyKind::Asc => Bson::Int32(1),
            KeyKind::Wildcard => Bson::Int32(1),
            KeyKind::Desc => Bson::Int32(-1),
            KeyKind::Text => Bson::String(owned("text")),
            KeyKind::Hashed => Bson::String(owned("hashed")),
            KeyKind::TwoDSphere => Bson::String(owned("2dsphere")),
            KeyKind::TwoD => Bson::String(owned("2d")),
        }
    }
}

/// One key of an index: a stored path and its kind.
#[derive(Clone, Copy, Debug)]
pub struct IndexKey {
    pub path: &'static str,
    pub kind: KeyKind,
}

/// The weight of one field of a text index.
#[derive(Clone, Copy, Debug)]
pub struct Weight {
    pub field: &'static str,
    pub weight: i32,
}

/// Collation strength, levels one to five.
#[derive(Clone, Copy, Debug, PartialEq, Eq, Structural)]
pub enum CollationStrength {
    Primary,
    Secondary,
    Tertiary,
    Quaternary,
    Identical,
}

impl CollationStrength {
    pub open spec fn spec_level(self) -> i64 {
        match self {
            CollationStrength::Primary => 1,
            CollationStrength::Secondary => 2,
            CollationStrength::Tertiary => 3,
            CollationStrength::Quaternary => 4,
            CollationStrength::Identical => 5,
        }
    }

    /// The strength's level.
    pub fn level(self) -> (n: i64)
        ensures
            n == self.spec_level(),
    {
        match self {
            CollationStrength::Primary => 1,
            CollationStrength::Secondary => 2,
            CollationStrength::Tertiary => 3,
            CollationStrength::Quaternary => 4,
            CollationStrength::Identical => 5,
        }
    }
}

#[derive(Clone, Copy, Debug)]
pub struct CollationSpec {
    pub locale: &'static str,
    pub strength: Option<CollationStrength>,
}

/// A declared index.
#[derive(Debug)]
pub struct IndexSpec {
    pub name: &'static str,
    pub keys: Vec<IndexKey>,
    pub unique: bool,
    pub sparse: bool,
    pub hidden: bool,
    pub ttl_seconds: Option<u64>,
    pub partial: Option<ConstBson>,
    pub weights: Vec<Weight>,
    pub collation: Option<CollationSpec>,
    pub wildcard_projection: Option<ConstBson>,
    pub bits: Option<u32>,
    pub min: Option<Float>,
    pub max: Option<Float>,
}

/// The keys document: each key's path with its kind, in declaration order.
pub open spec fn keys_view(keys: Seq<IndexKey>) -> DocV {
    doc_from(keys.map_values(|k: IndexKey| (k.path@, key_kind_view(k.kind))))
}

/// The weights document: each field with its weight as a 32-bit integer.
pub open spec fn weights_view(weights: Seq<Weight>) -> DocV {
    doc_from(weights.map_values(|w: Weight| (w.field@, BsonV::Int32(w.weight))))
}

/// The collation an index is built with.
#[derive(Debug, PartialEq)]
pub struct Collation {
    pub locale: String,
    pub strength: Option<CollationStrength>,
}

/// The options an index is created with; an option that is not set is `None`.
#[derive(Debug, PartialEq)]
pub struct IndexOptions {
    pub name: Option<String>,
    pub unique: Option<bool>,
    pub sparse: Option<bool>,
    pub hidden: Option<bool>,
    pub expire_after_secs: Option<u64>,
    pub partial_filter_expression: Option<Document>,
    pub weights: Option<Document>,
    pub collation: Option<Collation>,
    pub wildcard_projection: Option<Document>,
    pub bits: Option<u32>,
    pub min: Option<Float>,
    pub max: Option<Float>,
}

/// An index to create: its keys and options.
#[derive(Debug, PartialEq)]
pub struct IndexModel {
    pub keys: Document,
    pub options: Option<IndexOptions>,
}

pub open spec fn flag_option(b: bool) -> Option<bool> {
    if b {
        Some(true)
    } else {
        None
    }
}

pub open spec fn const_doc_option(c: Option<ConstBson>) -> Option<DocV> {
    match c {
        Some(c) => Some(const_view(c)->Doc_0),
        None => None,
    }
}

pub open spec fn opt_doc_view(d: Option<Document>) -> Option<DocV> {
    match d {
        Some(d) => Some(d@),
        None => None,
    }
}

impl IndexSpec {
    /// An index named `name` with no keys and no options.
    pub fn named(name: &'static str) -> (s: IndexSpec)
        ensures
            s.name == name,
            s.keys@.len() == 0,
            !s.unique && !s.sparse && !s.hidden,
            s.ttl_seconds is None && s.partial is None && s.weights@.len() == 0,
            s.collation is None && s.wildcard_projection is None,
            s.bits is None && s.min is None && s.max is None,
    {
        IndexSpec {
            name,
            keys: Vec::new(),
            unique: false,
            sparse: false,
            hidden: false,
            ttl_seconds: None,
            partial: None,
            weights: Vec::new(),
            collation: None,
            wildcard_projection: None,
            bits: None,
            min: None,
            max: None,
        }
    }

    /// The document constants of the spec are documents.
    pub open spec fn well_formed(&self) -> bool {
        &&& (self.partial matches Some(p) ==> const_view(p) is Doc)
        &&& (self.wildcard_projection matches Some(p) ==> const_view(p) is Doc)
    }

    pub fn keys_document(&self) -> (d: Document)
        ensures
            d@ == keys_view(self.keys@),
    {
        let ghost all = self.keys@.map_values(|k: IndexKey| (k.path@, key_kind_view(k.kind)));
        let mut d = Document::new();
        let mut i: usize = 0;
        while i < self.keys.len()
            invariant
                i <= self.keys@.len(),
                all == self.keys@.map_values(|k: IndexKey| (k.path@, key_kind_view(k.kind))),
                d@ == doc_from(all.take(i as int)),
            decreases self.keys.len() - i,
        {
            let key = self.keys[i];
            assert(all.take(i + 1).drop_last() == all.take(i as int));
            d.insert(owned(key.path), key.kind.to_bson());
            i = i + 1;
        }
        assert(all.take(i as int) == all);
        d
    }

    fn weights_document(&self) -> (d: Document)
        ensures
            d@ == weights_view(self.weights@),
    {
        let ghost all = self.weights@.map_values(|w: Weight| (w.field@, BsonV::Int32(w.weight)));
        let mut d = Document::new();
        let mut i: usize = 0;
        while i < self.weights.len()
            invariant
                i <= self.weights@.len(),
                all == self.weights@.map_values(|w: Weight| (w.field@, BsonV::Int32(w.weight))),
                d@ == doc_from(all.take(i as int)),
            decreases self.weights.len() - i,
        {
            let w = self.weights[i];
            assert(all.take(i + 1).drop_last() == all.take(i as int));
            d.insert(owned(w.field), Bson::Int32(w.weight));
            i = i + 1;
        }
        assert(all.take(i as int) == all);
        d
    }

    /// The index model this spec renders to: its keys, its name, and exactly
    /// the options it sets.
    pub fn to_model(&self) -> (m: IndexModel)
        requires
            self.well_formed(),
        ensures
            m.keys@ == keys_view(self.keys@),
            m.options matches Some(o) && {
                &&& o.name matches Some(n) && n@ == self.name@
                &&& o.unique == flag_option(self.unique)
                &&& o.sparse == flag_option(self.sparse)
                &&& o.hidden == flag_option(self.hidden)
                &&& o.expire_after_secs == self.ttl_seconds
                &&& opt_doc_view(o.partial_filter_expression) == const_doc_option(self.partial)
                &&& opt_doc_view(o.weights) == if self.weights@.len() == 0 {
                    None
                } else {
                    Some(weights_view(self.weights@))
                }
                &&& (self.collation matches Some(c) ==> o.collation matches Some(oc) && oc.locale@
                    == c.locale@ && oc.strength == c.strength)
                &&& (self.collation is None ==> o.collation is None)
                &&& opt_doc_view(o.wildcard_projection) == const_doc_option(
                    self.wildcard_projection,
                )
                &&& o.bits == self.bits
                &&& o.min == self.min
                &&& o.max == self.max
            },
    {
        let partial_filter_expression = match &self.partial {
            Some(p) => p.to_document(),
            None => None,
        };
        let wildcard_projection = match &self.wildcard_projection {
            Some(p) => p.to_document(),
            None => None,
        };
        let weights = if self.weights.len() == 0 {
            None
        } else {
            Some(self.weights_document())
        };
        let collation = match &self.collation {
            Some(c) => Some(Collation { locale: owned(c.locale), strength: c.strength }),
            None => None,
        };
        let options = IndexOptions {
            name: Some(owned(self.name)),
            unique: if self.unique {
                Some(true)
            } else {
                None
            },
            sparse: if self.sparse {
                Some(true)
            } else {
                None
            },
            hidden: if self.hidden {
                Some(true)
            } else {
                None
            },
            expire_after_secs: self.ttl_seconds,
            partial_filter_expression,
            weights,
            collation,
            wildcard_projection,
            bits: self.bits,
            min: self.min,
            max: self.max,
        };
        IndexModel { keys: self.keys_document(), options: Some(options) }
    }
}

/// How a query picks its index.
#[derive(Debug, PartialEq)]
pub enum Hint {
    Name(String),
    Keys(Document),
}

/// A declared index of entity `E`.
pub struct IndexRef<E> {
    spec: &'static IndexSpec,
    _marker: PhantomData<E>,
}

impl<E> IndexRef<E> {
    pub closed spec fn spec_spec(&self) -> &'static IndexSpec {
        self.spec
    }

    pub fn from_spec(spec: &'static IndexSpec) -> (r: Self)
        ensures
            r.spec_spec() == spec,
    {
        IndexRef { spec, _marker: PhantomData }
    }

    /// The index's name on the server.
    pub fn name(&self) -> (n: &'static str)
        ensures
            n == self.spec_spec().name,
    {
        self.spec.name
    }

    pub fn spec(&self) -> (s: &'static IndexSpec)
        ensures
            s == self.spec_spec(),
    {
        self.spec
    }
}

/// The index reference of a declared spec, for generated index tables.
pub fn index_ref_from_spec<E>(spec: &'static IndexSpec) -> (r: IndexRef<E>)
    ensures
        r.spec_spec() == spec,
{
    IndexRef::from_spec(spec)
}

/// What can pick the index of a query on entity `E`.
pub trait HintFor<E> {
    /// Whether `h` is the hint that this value gives.
    spec fn gives_hint(&self, h: Hint) -> bool;

    fn to_hint(&self) -> (h: Hint)
        ensures
            self.gives_hint(h),
    ;
}

impl<E> HintFor<E> for IndexRef<E> {
    /// An index reference hints by its name.
    open spec fn gives_hint(&self, h: Hint) -> bool {
        h matches Hint::Name(n) && n@ == self.spec_spec().name@
    }

    fn to_hint(&self) -> (h: Hint) {
        Hint::Name(owned(self.spec.name))
    }
}

impl Hint {
    /// Two hints name the same index, or list the same keys.
    pub open spec fn same_as(self, other: Hint) -> bool {
        match (self, other) {
            (Hint::Name(a), Hint::Name(b)) => a@ == b@,
            (Hint::Keys(a), Hint::Keys(b)) => a@ == b@,
            _ => false,
        }
    }

    /// A copy of the hint.
    pub fn duplicate(&self) -> (h: Hint)
        ensures
            (self matches Hint::Name(a) ==> h matches Hint::Name(b) && a@ == b@),
            (self matches Hint::Keys(a) ==> h matches Hint::Keys(b) && a@ == b@),
    {
        match self {
            Hint::Name(n) => Hint::Name(n.clone()),
            Hint::Keys(d) => Hint::Keys(d.duplicate()),
        }
    }
}

impl<E> HintFor<E> for Hint {
    /// A hint is passed through as it is.
    open spec fn gives_hint(&self, h: Hint) -> bool {
        self.same_as(h)
    }

    fn to_hint(&self) -> (h: Hint) {
        self.duplicate()
    }
}

} // verus!

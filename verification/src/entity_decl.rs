//! The rules of an entity or embedded declaration: which fields are stored
//! and under which names, what the `#[entity(...)]` options say, and which
//! index declarations are sound.
//!
//! The declaration arrives as plain facts: the struct's shape, each field's
//! name, its serialized and deserialized names and its serde flags, the
//! items of the `#[entity(...)]` attributes, and the tokens of each
//! `#[index(...)]` attribute.
use vstd::prelude::*;

use crate::index_attr::{
    AttrError, DeclV, ErrV, IndexDecl, KeyKindDecl, KeyV, Name, NameV, PartialDecl, PartialV, Token, decl_spec, fits, shown,
};
use crate::text::{chars_of, owned, push_str, str_eq};

verus! {

broadcast use vstd::string::group_string_axioms;

/// Which derive reads the declaration.
#[derive(PartialEq, Eq, Structural, Clone, Copy, Debug)]
pub enum DeriveKind {
    Entity,
    Embedded,
}

pub open spec fn derive_text(k: DeriveKind) -> Seq<char> {
    match k {
        DeriveKind::Entity => "Entity"@,
        DeriveKind::Embedded => "Embedded"@,
    }
}

/// The generic parameters of the struct.
#[derive(PartialEq, Eq, Structural, Clone, Copy, Debug)]
pub enum GenericsKind {
    /// No generic parameter.
    Absent,
    /// Only lifetime parameters.
    Lifetimes,
    /// At least one type or const parameter.
    Types,
}

/// What kind of item the declaration is.
#[derive(PartialEq, Eq, Structural, Clone, Copy, Debug)]
pub enum Shape {
    /// A struct with named fields.
    Named,
    /// A tuple or unit struct.
    Unnamed,
    /// An enum or a union.
    NotStruct,
}

/// One field as serde sees it.
pub struct FieldFacts {
    pub ident: Name,
    pub serialize_name: String,
    pub deserialize_name: String,
    pub flatten: bool,
    pub skip_serializing: bool,
    pub skip_deserializing: bool,
    pub custom_writer: bool,
}

/// The struct as serde sees it. The container attributes that store it
/// through another type come with their spans.
pub struct StructFacts {
    pub ident: Name,
    pub generics: GenericsKind,
    pub generics_span: usize,
    pub shape: Shape,
    pub split_rename_all: bool,
    pub from: Option<usize>,
    pub try_from: Option<usize>,
    pub into: Option<usize>,
    pub remote: Option<usize>,
    pub fields: Vec<FieldFacts>,
}

/// Why a field is never stored.
#[derive(PartialEq, Eq, Structural, Clone, Copy, Debug)]
pub enum Unstorable {
    Flatten,
    Skip,
    SkipSerializing,
}

pub open spec fn unstorable_text(u: Unstorable) -> Seq<char> {
    match u {
        Unstorable::Flatten => "#[serde(flatten)]"@,
        Unstorable::Skip => "#[serde(skip)]"@,
        Unstorable::SkipSerializing => "#[serde(skip_serializing)]"@,
    }
}

/// A field of the declaration: its name, its position among the fields, the
/// name it is stored under, and why it is never stored, if it is not.
#[derive(Debug, PartialEq)]
pub struct FieldModel {
    pub ident: Name,
    pub position: usize,
    pub stored_name: String,
    pub unstorable: Option<Unstorable>,
    pub fully_skipped: bool,
    pub flattened: bool,
    pub custom_writer: bool,
}

pub struct FieldV {
    pub ident: NameV,
    pub position: usize,
    pub stored_name: Seq<char>,
    pub unstorable: Option<Unstorable>,
    pub fully_skipped: bool,
    pub flattened: bool,
    pub custom_writer: bool,
}

impl View for FieldModel {
    type V = FieldV;

    open spec fn view(&self) -> FieldV {
        FieldV {
            ident: self.ident@,
            position: self.position,
            stored_name: self.stored_name@,
            unstorable: self.unstorable,
            fully_skipped: self.fully_skipped,
            flattened: self.flattened,
            custom_writer: self.custom_writer,
        }
    }
}

impl FieldV {
    /// The field takes up its stored name in the document.
    pub open spec fn occupies(self) -> bool {
        !self.fully_skipped && !self.flattened
    }
}

impl FieldModel {
    /// The field takes up its stored name in the document.
    pub fn occupies_stored_name(&self) -> (b: bool)
        ensures
            b == self@.occupies(),
    {
        !self.fully_skipped && !self.flattened
    }
}

/// The fields of a declaration.
#[derive(Debug, PartialEq)]
pub struct StructModel {
    pub ident: Name,
    pub fields: Vec<FieldModel>,
}

pub struct StructV {
    pub ident: NameV,
    pub fields: Seq<FieldV>,
}

pub open spec fn fields_view(fs: Seq<FieldModel>) -> Seq<FieldV> {
    fs.map_values(|f: FieldModel| f@)
}

impl View for StructModel {
    type V = StructV;

    open spec fn view(&self) -> StructV {
        StructV { ident: self.ident@, fields: fields_view(self.fields@) }
    }
}

pub open spec fn errs_view(es: Seq<AttrError>) -> Seq<ErrV> {
    es.map_values(|e: AttrError| e@)
}

/// The stored name a field claims, if another field that takes up its stored
/// name claims it first: the first such field.
pub open spec fn first_claim(earlier: Seq<FieldV>, stored: Seq<char>) -> Option<FieldV>
    decreases earlier.len(),
{
    if earlier.len() == 0 {
        None
    } else {
        match first_claim(earlier.drop_last(), stored) {
            Some(f) => Some(f),
            None => if earlier.last().occupies() && earlier.last().stored_name == stored {
                Some(earlier.last())
            } else {
                None
            },
        }
    }
}

/// A field's model, or what is wrong with it. `position` is its place among
/// the fields, `split` whether the struct renames fields differently for
/// writing and reading, and `earlier` the models of the sound fields before it.
pub open spec fn field_spec(f: FieldFacts, position: usize, kind: DeriveKind, split: bool, earlier: Seq<FieldV>) -> Result<FieldV, Seq<ErrV>> {
    let ident = f.ident@;
    let stored = f.serialize_name@;
    let fully_skipped = f.skip_serializing && f.skip_deserializing;
    let unstorable = if f.flatten {
        Some(Unstorable::Flatten)
    } else if fully_skipped {
        Some(Unstorable::Skip)
    } else if f.skip_serializing {
        Some(Unstorable::SkipSerializing)
    } else {
        None
    };
    if !split && f.serialize_name@ != f.deserialize_name@ {
        Err(seq![ErrV {
            span: ident.span,
            message: "`"@ + shown(ident) + "` is stored as `"@ + f.serialize_name@ + "` but read back as `"@ + f.deserialize_name@ + "`"@,
        }])
    } else if unstorable is None && stored.contains('.') {
        Err(seq![ErrV {
            span: ident.span,
            message: "the stored name `"@ + stored + "` contains a `.`, which query paths read as nested-field access"@,
        }])
    } else if unstorable is None && kind == DeriveKind::Entity && stored == "_id"@ {
        Err(seq![ErrV { span: ident.span, message: "the stored name `_id` is reserved"@ }])
    } else if !fully_skipped && !f.flatten && first_claim(earlier, stored) is Some {
        Err(seq![
            ErrV { span: ident.span, message: "two fields store under `"@ + stored + "`"@ },
            ErrV { span: first_claim(earlier, stored)->0.ident.span, message: "the first field stored under `"@ + stored + "`"@ },
        ])
    } else {
        Ok(FieldV {
            ident,
            position,
            stored_name: stored,
            unstorable,
            fully_skipped,
            flattened: f.flatten,
            custom_writer: f.custom_writer,
        })
    }
}

/// The models of the sound fields among the first `n`, and the failures of
/// the others, in order.
pub open spec fn fields_fold(fs: Seq<FieldFacts>, n: int, kind: DeriveKind, split: bool) -> (Seq<FieldV>, Seq<ErrV>)
    decreases n,
{
    if n <= 0 {
        (Seq::empty(), Seq::empty())
    } else {
        let (models, errs) = fields_fold(fs, n - 1, kind, split);
        match field_spec(fs[n - 1], (n - 1) as usize, kind, split, models) {
            Ok(m) => (models.push(m), errs),
            Err(e) => (models, errs + e),
        }
    }
}

/// The failures of the container attributes that store the struct through
/// another type, in the order `from`, `try_from`, `into`, `remote`.
pub open spec fn delegation_errs(s: StructFacts) -> Seq<ErrV> {
    let one = |span: Option<usize>, attr: Seq<char>| match span {
        Some(sp) => seq![ErrV {
            span: sp,
            message: "`#[serde("@ + attr + ")]` stores this struct through another type, so its fields do not describe the stored document"@,
        }],
        None => Seq::empty(),
    };
    one(s.from, "from"@) + one(s.try_from, "try_from"@) + one(s.into, "into"@) + one(s.remote, "remote"@)
}

/// A struct's model, or all that is wrong with it: generics and other shapes
/// are refused at once; otherwise every failure is reported together.
pub open spec fn struct_spec(s: StructFacts, kind: DeriveKind) -> Result<StructV, Seq<ErrV>> {
    if s.generics != GenericsKind::Absent {
        Err(seq![ErrV {
            span: s.generics_span,
            message: "`#[derive("@ + derive_text(kind) + ")]` does not support "@ + if s.generics == GenericsKind::Lifetimes {
                "lifetime parameters"@
            } else {
                "generic types"@
            },
        }])
    } else if s.shape == Shape::NotStruct {
        Err(seq![ErrV { span: s.ident.span, message: "`#[derive("@ + derive_text(kind) + ")]` supports structs only"@ }])
    } else if s.shape == Shape::Unnamed {
        Err(seq![ErrV { span: s.ident.span, message: "`#[derive("@ + derive_text(kind) + ")]` requires named fields"@ }])
    } else {
        let split_err = if s.split_rename_all {
            seq![ErrV {
                span: s.ident.span,
                message: "split serialize/deserialize `rename_all` writes fields under one set of names and reads them back under another"@,
            }]
        } else {
            Seq::empty()
        };
        let (models, errs) = fields_fold(s.fields@, s.fields@.len() as int, kind, s.split_rename_all);
        let all = split_err + delegation_errs(s) + errs;
        if all.len() > 0 {
            Err(all)
        } else {
            Ok(StructV { ident: s.ident@, fields: models })
        }
    }
}

fn error(span: usize, message: &str) -> (e: AttrError)
    ensures
        e@ == (ErrV { span, message: message@ }),
{
    AttrError { span, message: owned(message) }
}

fn shown_of(n: &Name) -> (s: String)
    ensures
        s@ == shown(n@),
{
    if n.raw {
        proof {
            reveal_strlit("r#");
        }
        let mut s = owned("r#");
        push_str(&mut s, n.text.as_str());
        s
    } else {
        n.text.clone()
    }
}

fn has_dot(s: &str) -> (b: bool)
    ensures
        b == s@.contains('.'),
{
    let cs = chars_of(s);
    let mut i: usize = 0;
    while i < cs.len()
        invariant
            cs@ == s@,
            i <= cs@.len(),
            forall|j: int| 0 <= j < i ==> cs@[j] != '.',
        decreases cs.len() - i,
    {
        if cs[i] == '.' {
            assert(s@[i as int] == '.');
            return true;
        }
        i = i + 1;
    }
    false
}

fn find_claim(earlier: &Vec<FieldModel>, stored: &String) -> (r: Option<usize>)
    ensures
        match first_claim(fields_view(earlier@), stored@) {
            Some(f) => r matches Some(i) && i < earlier@.len() && earlier@[i as int]@ == f,
            None => r is None,
        },
{
    let ghost ev = fields_view(earlier@);
    let mut i: usize = 0;
    while i < earlier.len()
        invariant
            i <= earlier@.len(),
            ev == fields_view(earlier@),
            first_claim(ev.take(i as int), stored@) is None,
        decreases earlier.len() - i,
    {
        assert(ev.take(i + 1).drop_last() =~= ev.take(i as int));
        assert(ev.take(i + 1).last() == earlier@[i as int]@);
        if earlier[i].occupies_stored_name() && str_eq(earlier[i].stored_name.as_str(), stored.as_str()) {
            proof {
                lemma_first_claim_extends(ev, i as int + 1, stored@);
            }
            return Some(i);
        }
        i = i + 1;
    }
    assert(ev.take(i as int) =~= ev);
    None
}

/// Once a claim is found among the first `n`, it is the claim of all.
proof fn lemma_first_claim_extends(ev: Seq<FieldV>, n: int, stored: Seq<char>)
    requires
        0 <= n <= ev.len(),
        first_claim(ev.take(n), stored) is Some,
    ensures
        first_claim(ev, stored) == first_claim(ev.take(n), stored),
    decreases ev.len() - n,
{
    if n < ev.len() {
        assert(ev.take(n + 1).drop_last() =~= ev.take(n));
        lemma_first_claim_extends(ev, n + 1, stored);
    } else {
        assert(ev.take(n) =~= ev);
    }
}

/// A field's model, or what is wrong with it; see [`field_spec`].
pub fn field_model(f: &FieldFacts, position: usize, kind: DeriveKind, split: bool, earlier: &Vec<FieldModel>) -> (r: Result<FieldModel, Vec<AttrError>>)
    ensures
        match field_spec(*f, position, kind, split, fields_view(earlier@)) {
            Ok(m) => r matches Ok(x) && x@ == m,
            Err(e) => r matches Err(x) && errs_view(x@) == e,
        },
{
    let ident_span = f.ident.span;
    if !split && !str_eq(f.serialize_name.as_str(), f.deserialize_name.as_str()) {
        let mut message = owned("`");
        push_str(&mut message, shown_of(&f.ident).as_str());
        push_str(&mut message, "` is stored as `");
        push_str(&mut message, f.serialize_name.as_str());
        push_str(&mut message, "` but read back as `");
        push_str(&mut message, f.deserialize_name.as_str());
        push_str(&mut message, "`");
        let e = AttrError { span: ident_span, message };
        let v = vec![e];
        assert(errs_view(v@) =~= seq![e@]);
        return Err(v);
    }
    let stored = f.serialize_name.clone();
    let fully_skipped = f.skip_serializing && f.skip_deserializing;
    let unstorable = if f.flatten {
        Some(Unstorable::Flatten)
    } else if fully_skipped {
        Some(Unstorable::Skip)
    } else if f.skip_serializing {
        Some(Unstorable::SkipSerializing)
    } else {
        None
    };
    if unstorable.is_none() && has_dot(stored.as_str()) {
        let mut message = owned("the stored name `");
        push_str(&mut message, stored.as_str());
        push_str(&mut message, "` contains a `.`, which query paths read as nested-field access");
        let e = AttrError { span: ident_span, message };
        let v = vec![e];
        assert(errs_view(v@) =~= seq![e@]);
        return Err(v);
    }
    if unstorable.is_none() && kind == DeriveKind::Entity && str_eq(stored.as_str(), "_id") {
        let e = error(ident_span, "the stored name `_id` is reserved");
        let v = vec![e];
        assert(errs_view(v@) =~= seq![e@]);
        return Err(v);
    }
    if !fully_skipped && !f.flatten {
        match find_claim(earlier, &stored) {
            Some(i) => {
                let mut m1 = owned("two fields store under `");
                push_str(&mut m1, stored.as_str());
                push_str(&mut m1, "`");
                let mut m2 = owned("the first field stored under `");
                push_str(&mut m2, stored.as_str());
                push_str(&mut m2, "`");
                let e1 = AttrError { span: ident_span, message: m1 };
                let e2 = AttrError { span: earlier[i].ident.span, message: m2 };
                let v = vec![e1, e2];
                assert(errs_view(v@) =~= seq![e1@, e2@]);
                return Err(v);
            },
            None => {},
        }
    }
    Ok(FieldModel {
        ident: Name { text: f.ident.text.clone(), raw: f.ident.raw, span: ident_span },
        position,
        stored_name: stored,
        unstorable,
        fully_skipped,
        flattened: f.flatten,
        custom_writer: f.custom_writer,
    })
}

fn push_errors(all: &mut Vec<AttrError>, more: Vec<AttrError>)
    ensures
        errs_view(final(all)@) == errs_view(old(all)@) + errs_view(more@),
{
    let ghost start = errs_view(all@);
    let mut rest = more;
    let ghost whole = errs_view(rest@);
    let ghost n = rest@.len();
    while rest.len() > 0
        invariant
            n == whole.len(),
            rest@.len() <= n,
            errs_view(rest@) == whole.subrange(n - rest@.len(), n as int),
            errs_view(all@) == start + whole.subrange(0, n - rest@.len()),
        decreases rest@.len(),
    {
        let ghost r0 = rest@;
        let ghost a0 = errs_view(all@);
        let e = rest.remove(0);
        assert(errs_view(r0)[0] == e@);
        all.push(e);
        assert(errs_view(all@) =~= a0.push(e@));
        assert(errs_view(rest@) =~= errs_view(r0).drop_first());
        assert(whole.subrange(0, n - rest@.len()) =~= whole.subrange(0, n - r0.len()).push(e@));
    }
    assert(whole.subrange(0, n as int) =~= whole);
}

fn delegation_error(all: &mut Vec<AttrError>, span: Option<usize>, attr: &str)
    ensures
        errs_view(final(all)@) == errs_view(old(all)@) + match span {
            Some(sp) => seq![ErrV {
                span: sp,
                message: "`#[serde("@ + attr@ + ")]` stores this struct through another type, so its fields do not describe the stored document"@,
            }],
            None => Seq::empty(),
        },
{
    match span {
        Some(sp) => {
            let mut message = owned("`#[serde(");
            push_str(&mut message, attr);
            push_str(&mut message, ")]` stores this struct through another type, so its fields do not describe the stored document");
            let ghost a0 = errs_view(all@);
            let e = AttrError { span: sp, message };
            all.push(e);
            assert(errs_view(all@) =~= a0 + seq![e@]);
        },
        None => {
            assert(errs_view(all@) =~= errs_view(all@) + Seq::<ErrV>::empty());
        },
    }
}

/// The model of a struct, or all that is wrong with it; see [`struct_spec`].
pub fn parse_struct(s: &StructFacts, kind: DeriveKind) -> (r: Result<StructModel, Vec<AttrError>>)
    requires
        s.fields@.len() < usize::MAX,
    ensures
        match struct_spec(*s, kind) {
            Ok(m) => r matches Ok(x) && x@ == m,
            Err(e) => r matches Err(x) && errs_view(x@) == e,
        },
{
    let kind_text = match kind {
        DeriveKind::Entity => "Entity",
        DeriveKind::Embedded => "Embedded",
    };
    proof {
        reveal_strlit("Entity");
        reveal_strlit("Embedded");
    }
    assert(kind_text@ == derive_text(kind));
    if s.generics != GenericsKind::Absent {
        let mut message = owned("`#[derive(");
        push_str(&mut message, kind_text);
        push_str(&mut message, ")]` does not support ");
        if s.generics == GenericsKind::Lifetimes {
            push_str(&mut message, "lifetime parameters");
        } else {
            push_str(&mut message, "generic types");
        }
        let e = AttrError { span: s.generics_span, message };
        let v = vec![e];
        assert(errs_view(v@) =~= seq![e@]);
        return Err(v);
    }
    if s.shape != Shape::Named {
        let mut message = owned("`#[derive(");
        push_str(&mut message, kind_text);
        if s.shape == Shape::NotStruct {
            push_str(&mut message, ")]` supports structs only");
        } else {
            push_str(&mut message, ")]` requires named fields");
        }
        let e = AttrError { span: s.ident.span, message };
        let v = vec![e];
        assert(errs_view(v@) =~= seq![e@]);
        return Err(v);
    }
    let mut errors: Vec<AttrError> = Vec::new();
    if s.split_rename_all {
        errors.push(error(
            s.ident.span,
            "split serialize/deserialize `rename_all` writes fields under one set of names and reads them back under another",
        ));
    }
    delegation_error(&mut errors, s.from, "from");
    delegation_error(&mut errors, s.try_from, "try_from");
    delegation_error(&mut errors, s.into, "into");
    delegation_error(&mut errors, s.remote, "remote");
    let ghost head = errs_view(errors@);
    proof {
        reveal_strlit("from");
        reveal_strlit("try_from");
        reveal_strlit("into");
        reveal_strlit("remote");
        assert(head =~= (if s.split_rename_all {
            seq![ErrV {
                span: s.ident.span,
                message: "split serialize/deserialize `rename_all` writes fields under one set of names and reads them back under another"@,
            }]
        } else {
            Seq::empty()
        }) + delegation_errs(*s));
    }
    let mut fields: Vec<FieldModel> = Vec::new();
    let mut i: usize = 0;
    while i < s.fields.len()
        invariant
            i <= s.fields@.len(),
            s.fields@.len() < usize::MAX,
            ({
                let (models, errs) = fields_fold(s.fields@, i as int, kind, s.split_rename_all);
                fields_view(fields@) == models && errs_view(errors@) == head + errs
            }),
        decreases s.fields.len() - i,
    {
        let ghost f0 = fields_view(fields@);
        let ghost e0 = errs_view(errors@);
        match field_model(&s.fields[i], i, kind, s.split_rename_all, &fields) {
            Ok(m) => {
                let ghost mv = m@;
                fields.push(m);
                assert(fields_view(fields@) =~= f0.push(mv));
            },
            Err(es) => {
                let ghost ev = errs_view(es@);
                push_errors(&mut errors, es);
                assert(errs_view(errors@) =~= head + (fields_fold(s.fields@, i as int, kind, s.split_rename_all).1 + ev));
            },
        }
        i = i + 1;
    }
    if errors.len() > 0 {
        return Err(errors);
    }
    Ok(StructModel { ident: Name { text: s.ident.text.clone(), raw: s.ident.raw, span: s.ident.span }, fields })
}

/// Whether `s` reads as one Rust identifier.
pub uninterp spec fn parses_as_ident(s: Seq<char>) -> bool;

/// `syn::parse_str::<syn::Ident>`, succeeded: whether `s` reads as one Rust
/// identifier (a keyword does not).
#[verifier::external_body]
fn is_ident(s: &str) -> (b: bool)
    ensures
        b == parses_as_ident(s@),
{
    syn::parse_str::<syn::Ident>(s).is_ok()
}

/// One item of an `#[entity(...)]` attribute, in the order written. An item
/// that is not well-formed ends the list.
pub enum EntityOption {
    /// `collection = "..."`.
    Collection(String),
    /// `id = Type`; the type is the one at this position in the caller's list.
    Id(usize),
    /// `versioned`, or `versioned = "..."` with the literal's span.
    Versioned(Option<(String, usize)>),
    /// Another option, at this span.
    Unknown(usize),
    /// An item that does not parse.
    Malformed(AttrError),
}

/// An `#[index(...)]` attribute: its tokens and where its input ends, or the
/// failure that it has no argument list.
pub enum IndexAttr {
    Tokens { tokens: Vec<Token>, end: usize },
    Malformed(AttrError),
}

/// An entity declaration as plain facts: the struct, the attributes on its
/// fields (their path when it is one name, and their span), the
/// `#[entity(...)]` items and the `#[index(...)]` attributes.
pub struct EntityFacts {
    pub base: StructFacts,
    pub field_attrs: Vec<(Option<String>, usize)>,
    pub options: Vec<EntityOption>,
    pub indexes: Vec<IndexAttr>,
}

/// A sound entity declaration: its fields, collection, id type (`None`: the
/// default object id), lock name (`None`: unversioned) and indexes.
#[derive(Debug, PartialEq)]
pub struct EntityModel {
    pub base: StructModel,
    pub collection: String,
    pub id_type: Option<usize>,
    pub version: Option<String>,
    pub indexes: Vec<IndexDecl>,
}

pub struct EntityV {
    pub base: StructV,
    pub collection: Seq<char>,
    pub id_type: Option<usize>,
    pub version: Option<Seq<char>>,
    pub indexes: Seq<DeclV>,
}

pub open spec fn decls_view(ds: Seq<IndexDecl>) -> Seq<DeclV> {
    ds.map_values(|d: IndexDecl| d@)
}

impl View for EntityModel {
    type V = EntityV;

    open spec fn view(&self) -> EntityV {
        EntityV {
            base: self.base@,
            collection: self.collection@,
            id_type: self.id_type,
            version: match self.version {
                Some(v) => Some(v@),
                None => None,
            },
            indexes: decls_view(self.indexes@),
        }
    }
}

/// The first attribute on a field that belongs on the struct, as a failure.
pub open spec fn misplaced(attrs: Seq<(Option<String>, usize)>, n: int) -> Option<ErrV>
    decreases n,
{
    if n <= 0 {
        None
    } else {
        match misplaced(attrs, n - 1) {
            Some(e) => Some(e),
            None => match attrs[n - 1].0 {
                Some(p) => if p@ == "entity"@ {
                    Some(ErrV { span: attrs[n - 1].1, message: "`#[entity]` applies to the struct, not a field"@ })
                } else if p@ == "index"@ {
                    Some(ErrV { span: attrs[n - 1].1, message: "`#[index]` applies to the struct, not a field"@ })
                } else {
                    None
                },
                None => None,
            },
        }
    }
}

/// The collection, id type and lock name the first `n` items say, later
/// items overriding earlier ones; or the first failure.
pub open spec fn options_fold(opts: Seq<EntityOption>, n: int) -> Result<(Option<Seq<char>>, Option<usize>, Option<Seq<char>>), ErrV>
    decreases n,
{
    if n <= 0 {
        Ok((None, None, None))
    } else {
        match options_fold(opts, n - 1) {
            Err(e) => Err(e),
            Ok((c, id, v)) => match opts[n - 1] {
                EntityOption::Collection(x) => Ok((Some(x@), id, v)),
                EntityOption::Id(t) => Ok((c, Some(t), v)),
                EntityOption::Versioned(None) => Ok((c, id, Some("version"@))),
                EntityOption::Versioned(Some((x, span))) => if parses_as_ident(x@) {
                    Ok((c, id, Some(x@)))
                } else {
                    Err(ErrV { span, message: "the version field name must be an identifier"@ })
                },
                EntityOption::Unknown(span) => Err(ErrV {
                    span,
                    message: "unknown `entity` option, expected `collection`, `id`, or `versioned`"@,
                }),
                EntityOption::Malformed(e) => Err(e@),
            },
        }
    }
}

/// The first stored field that holds the lock's name.
pub open spec fn lock_clash(fields: Seq<FieldV>, version: Seq<char>) -> Option<FieldV>
    decreases fields.len(),
{
    if fields.len() == 0 {
        None
    } else {
        match lock_clash(fields.drop_last(), version) {
            Some(f) => Some(f),
            None => {
                let f = fields.last();
                if f.occupies() && f.unstorable is None && f.stored_name == version {
                    Some(f)
                } else {
                    None
                }
            },
        }
    }
}

/// The declarations of the first `n` index attributes that parse, and the
/// failures of the others, in order.
pub open spec fn index_fold(attrs: Seq<IndexAttr>, n: int) -> (Seq<DeclV>, Seq<ErrV>)
    decreases n,
{
    if n <= 0 {
        (Seq::empty(), Seq::empty())
    } else {
        let (decls, errs) = index_fold(attrs, n - 1);
        match attrs[n - 1] {
            IndexAttr::Tokens { tokens, end } => match decl_spec(tokens@, end) {
                Ok(d) => (decls.push(d), errs),
                Err(e) => (decls, errs.push(e)),
            },
            IndexAttr::Malformed(e) => (decls, errs.push(e@)),
        }
    }
}

/// The first field named `text` (compared without `r#`).
pub open spec fn find_field(fields: Seq<FieldV>, text: Seq<char>) -> Option<FieldV>
    decreases fields.len(),
{
    if fields.len() == 0 {
        None
    } else {
        match find_field(fields.drop_last(), text) {
            Some(f) => Some(f),
            None => if fields.last().ident.text == text {
                Some(fields.last())
            } else {
                None
            },
        }
    }
}

/// The stored field that `ident` names, or why it cannot serve; `purpose`
/// ends the failure's text.
pub open spec fn storable_spec(base: StructV, ident: NameV, purpose: Seq<char>) -> Result<FieldV, ErrV> {
    match find_field(base.fields, ident.text) {
        None => Err(ErrV { span: ident.span, message: "`"@ + shown(ident) + "` is not a field of `"@ + shown(base.ident) + "`"@ }),
        Some(f) => match f.unstorable {
            Some(u) => Err(ErrV {
                span: ident.span,
                message: "`"@ + shown(ident) + "` carries "@ + unstorable_text(u) + ", so it is never stored"@ + purpose,
            }),
            None => Ok(f),
        },
    }
}

/// A key on `_id` itself.
pub open spec fn is_id_key(k: KeyV) -> bool {
    k.field matches Some(f) && f.text == "_id"@
}

/// The path a key indexes, as the duplicate check compares it.
pub open spec fn key_path(k: KeyV) -> Seq<char> {
    match k.field {
        None => "$**"@,
        Some(f) => if k.kind == KeyKindDecl::FieldWildcard {
            f.text + ".$**"@
        } else {
            f.text
        },
    }
}

/// The first failure of a key among the first `n` that names no stored field.
pub open spec fn keys_storable(base: StructV, keys: Seq<KeyV>, n: int) -> Option<ErrV>
    decreases n,
{
    if n <= 0 {
        None
    } else {
        match keys_storable(base, keys, n - 1) {
            Some(e) => Some(e),
            None => {
                let k = keys[n - 1];
                if is_id_key(k) || k.field is None {
                    None
                } else {
                    match storable_spec(base, k.field->0, " and cannot be indexed"@) {
                        Err(e) => Some(e),
                        Ok(_) => None,
                    }
                }
            },
        }
    }
}

/// The first key among the first `n` whose path an earlier key has.
pub open spec fn first_repeat(keys: Seq<KeyV>, n: int) -> Option<int>
    decreases n,
{
    if n <= 0 {
        None
    } else {
        match first_repeat(keys, n - 1) {
            Some(i) => Some(i),
            None => if exists|j: int| 0 <= j < n - 1 && #[trigger] key_path(keys[j]) == key_path(keys[n - 1]) {
                Some(n - 1)
            } else {
                None
            },
        }
    }
}

/// The failure of a field that is never stored, named in a partial filter.
pub open spec fn never_filters(name: NameV, u: Unstorable, span: usize) -> ErrV {
    ErrV {
        span,
        message: "`"@ + shown(name) + "` carries "@ + unstorable_text(u) + ", so it is never stored and cannot filter an index"@,
    }
}

/// The failure of a partial filter whose shorthand names a field of the
/// struct that is never stored. A name that is no field is taken as a stored
/// name as it stands.
pub open spec fn partial_storable(base: StructV, partial: Option<PartialV>) -> Option<ErrV> {
    match partial {
        Some(PartialV::Shorthand { field, .. }) => match find_field(base.fields, field.text) {
            Some(f) => match f.unstorable {
                Some(u) => Some(never_filters(field, u, field.span)),
                None => None,
            },
            None => None,
        },
        _ => None,
    }
}

/// Why an index declaration is unsound, if it is: a key on a field that is
/// not stored, a partial filter on a field that is never stored, a path
/// indexed twice, or a one-key ascending index on `_id`, which the server
/// always has.
pub open spec fn validate_spec(base: StructV, d: DeclV) -> Option<ErrV> {
    match keys_storable(base, d.keys, d.keys.len() as int) {
        Some(e) => Some(e),
        None => match partial_storable(base, d.partial) {
          Some(e) => Some(e),
          None => match first_repeat(d.keys, d.keys.len() as int) {
            Some(i) => Some(ErrV {
                span: d.keys[i].span,
                message: "`"@ + key_path(d.keys[i]) + "` appears twice in this index's keys"@,
            }),
            None => if d.keys.len() == 1 && is_id_key(d.keys[0]) && d.keys[0].kind == KeyKindDecl::Asc {
                Some(ErrV {
                    span: d.keys[0].span,
                    message: "a one-key `_id` index restates the server's built-in `_id_` index. Remove it"@,
                })
            } else {
                None
            },
          },
        },
    }
}

/// The failures of the first `n` declarations, in order.
pub open spec fn validate_fold(base: StructV, decls: Seq<DeclV>, n: int) -> Seq<ErrV>
    decreases n,
{
    if n <= 0 {
        Seq::empty()
    } else {
        let before = validate_fold(base, decls, n - 1);
        match validate_spec(base, decls[n - 1]) {
            Some(e) => before.push(e),
            None => before,
        }
    }
}

/// An entity declaration's model, or what is wrong with it: the struct's
/// failures; an entity or index attribute on a field; a bad entity option; a
/// missing collection; a stored field that holds the lock's name; the index
/// attributes that do not parse (all of them); or else the unsound index
/// declarations (all of them).
pub open spec fn entity_spec(f: EntityFacts) -> Result<EntityV, Seq<ErrV>> {
    match struct_spec(f.base, DeriveKind::Entity) {
        Err(e) => Err(e),
        Ok(base) => match misplaced(f.field_attrs@, f.field_attrs@.len() as int) {
            Some(e) => Err(seq![e]),
            None => match options_fold(f.options@, f.options@.len() as int) {
                Err(e) => Err(seq![e]),
                Ok((None, _, _)) => Err(seq![ErrV { span: base.ident.span, message: "missing `#[entity(collection = \"...\")]`"@ }]),
                Ok((Some(collection), id_type, version)) => {
                    let clash = match version {
                        Some(v) => lock_clash(base.fields, v),
                        None => None,
                    };
                    if clash is Some {
                        Err(seq![ErrV {
                            span: clash->0.ident.span,
                            message: "the stored name `"@ + version->0 + "` is reserved for the version lock. Rename the field, or the lock with `versioned = \"...\"`"@,
                        }])
                    } else {
                        let (decls, errs) = index_fold(f.indexes@, f.indexes@.len() as int);
                        if errs.len() > 0 {
                            Err(errs)
                        } else {
                            let verrs = validate_fold(base, decls, decls.len() as int);
                            if verrs.len() > 0 {
                                Err(verrs)
                            } else {
                                Ok(EntityV { base, collection, id_type, version, indexes: decls })
                            }
                        }
                    }
                },
            },
        },
    }
}

/// No failure, or all of them together.
pub fn combine_errors(errors: Vec<AttrError>) -> (r: Result<(), Vec<AttrError>>)
    ensures
        errors@.len() == 0 ==> r is Ok,
        errors@.len() > 0 ==> r == Err::<(), Vec<AttrError>>(errors),
{
    if errors.len() == 0 {
        Ok(())
    } else {
        Err(errors)
    }
}

fn reject_misplaced_attrs(attrs: &Vec<(Option<String>, usize)>) -> (r: Option<AttrError>)
    ensures
        match misplaced(attrs@, attrs@.len() as int) {
            Some(e) => r matches Some(x) && x@ == e,
            None => r is None,
        },
{
    let mut i: usize = 0;
    while i < attrs.len()
        invariant
            i <= attrs@.len(),
            misplaced(attrs@, i as int) is None,
        decreases attrs.len() - i,
    {
        match &attrs[i].0 {
            Some(p) => {
                if str_eq(p.as_str(), "entity") {
                    proof { lemma_misplaced_stays(attrs@, i as int + 1); }
                    return Some(error(attrs[i].1, "`#[entity]` applies to the struct, not a field"));
                }
                if str_eq(p.as_str(), "index") {
                    proof { lemma_misplaced_stays(attrs@, i as int + 1); }
                    return Some(error(attrs[i].1, "`#[index]` applies to the struct, not a field"));
                }
            },
            None => {},
        }
        i = i + 1;
    }
    None
}

proof fn lemma_misplaced_stays(attrs: Seq<(Option<String>, usize)>, n: int)
    requires
        0 <= n <= attrs.len(),
        misplaced(attrs, n) is Some,
    ensures
        misplaced(attrs, attrs.len() as int) == misplaced(attrs, n),
    decreases attrs.len() - n,
{
    if n < attrs.len() {
        lemma_misplaced_stays(attrs, n + 1);
    }
}

fn entity_options(opts: &Vec<EntityOption>) -> (r: Result<(Option<String>, Option<usize>, Option<String>), AttrError>)
    ensures
        match options_fold(opts@, opts@.len() as int) {
            Ok((c, id, v)) => r matches Ok(x) && x.1 == id && match (x.0, c) {
                (Some(a), Some(b)) => a@ == b,
                (None, None) => true,
                _ => false,
            } && match (x.2, v) {
                (Some(a), Some(b)) => a@ == b,
                (None, None) => true,
                _ => false,
            },
            Err(e) => r matches Err(x) && x@ == e,
        },
{
    let mut collection: Option<String> = None;
    let mut id: Option<usize> = None;
    let mut version: Option<String> = None;
    let mut i: usize = 0;
    while i < opts.len()
        invariant
            i <= opts@.len(),
            options_fold(opts@, i as int) matches Ok((c, t, v)) && t == id && match (collection, c) {
                (Some(a), Some(b)) => a@ == b,
                (None, None) => true,
                _ => false,
            } && match (version, v) {
                (Some(a), Some(b)) => a@ == b,
                (None, None) => true,
                _ => false,
            },
        decreases opts.len() - i,
    {
        match &opts[i] {
            EntityOption::Collection(x) => {
                collection = Some(x.clone());
            },
            EntityOption::Id(t) => {
                id = Some(*t);
            },
            EntityOption::Versioned(None) => {
                version = Some(owned("version"));
            },
            EntityOption::Versioned(Some((x, span))) => {
                if !is_ident(x.as_str()) {
                    proof { lemma_options_fold_err(opts@, i as int + 1); }
                    return Err(error(*span, "the version field name must be an identifier"));
                }
                version = Some(x.clone());
            },
            EntityOption::Unknown(span) => {
                proof { lemma_options_fold_err(opts@, i as int + 1); }
                return Err(error(*span, "unknown `entity` option, expected `collection`, `id`, or `versioned`"));
            },
            EntityOption::Malformed(e) => {
                proof { lemma_options_fold_err(opts@, i as int + 1); }
                return Err(AttrError { span: e.span, message: e.message.clone() });
            },
        }
        i = i + 1;
    }
    Ok((collection, id, version))
}

proof fn lemma_options_fold_err(opts: Seq<EntityOption>, n: int)
    requires
        0 <= n <= opts.len(),
        options_fold(opts, n) is Err,
    ensures
        options_fold(opts, opts.len() as int) == options_fold(opts, n),
    decreases opts.len() - n,
{
    if n < opts.len() {
        lemma_options_fold_err(opts, n + 1);
    }
}

fn find_lock_clash(fields: &Vec<FieldModel>, version: &String) -> (r: Option<usize>)
    ensures
        match lock_clash(fields_view(fields@), version@) {
            Some(f) => r matches Some(i) && i < fields@.len() && fields@[i as int]@ == f,
            None => r is None,
        },
{
    let ghost fv = fields_view(fields@);
    let mut i: usize = 0;
    while i < fields.len()
        invariant
            i <= fields@.len(),
            fv == fields_view(fields@),
            lock_clash(fv.take(i as int), version@) is None,
        decreases fields.len() - i,
    {
        assert(fv.take(i + 1).drop_last() =~= fv.take(i as int));
        assert(fv.take(i + 1).last() == fields@[i as int]@);
        if fields[i].occupies_stored_name() && fields[i].unstorable.is_none()
            && str_eq(fields[i].stored_name.as_str(), version.as_str()) {
            proof { lemma_lock_clash_stays(fv, i as int + 1, version@); }
            return Some(i);
        }
        i = i + 1;
    }
    assert(fv.take(i as int) =~= fv);
    None
}

proof fn lemma_lock_clash_stays(fv: Seq<FieldV>, n: int, version: Seq<char>)
    requires
        0 <= n <= fv.len(),
        lock_clash(fv.take(n), version) is Some,
    ensures
        lock_clash(fv, version) == lock_clash(fv.take(n), version),
    decreases fv.len() - n,
{
    if n < fv.len() {
        assert(fv.take(n + 1).drop_last() =~= fv.take(n));
        lemma_lock_clash_stays(fv, n + 1, version);
    } else {
        assert(fv.take(n) =~= fv);
    }
}

fn lookup_field(fields: &Vec<FieldModel>, text: &String) -> (r: Option<usize>)
    ensures
        match find_field(fields_view(fields@), text@) {
            Some(f) => r matches Some(i) && i < fields@.len() && fields@[i as int]@ == f,
            None => r is None,
        },
{
    let ghost fv = fields_view(fields@);
    let mut i: usize = 0;
    while i < fields.len()
        invariant
            i <= fields@.len(),
            fv == fields_view(fields@),
            find_field(fv.take(i as int), text@) is None,
        decreases fields.len() - i,
    {
        assert(fv.take(i + 1).drop_last() =~= fv.take(i as int));
        assert(fv.take(i + 1).last() == fields@[i as int]@);
        if str_eq(fields[i].ident.text.as_str(), text.as_str()) {
            proof { lemma_find_field_stays(fv, i as int + 1, text@); }
            return Some(i);
        }
        i = i + 1;
    }
    assert(fv.take(i as int) =~= fv);
    None
}

proof fn lemma_find_field_stays(fv: Seq<FieldV>, n: int, text: Seq<char>)
    requires
        0 <= n <= fv.len(),
        find_field(fv.take(n), text) is Some,
    ensures
        find_field(fv, text) == find_field(fv.take(n), text),
    decreases fv.len() - n,
{
    if n < fv.len() {
        assert(fv.take(n + 1).drop_last() =~= fv.take(n));
        lemma_find_field_stays(fv, n + 1, text);
    } else {
        assert(fv.take(n) =~= fv);
    }
}

/// The serde attribute that keeps a field from being stored.
fn unstorable_attr(u: Unstorable) -> (t: &'static str)
    ensures
        t@ == unstorable_text(u),
{
    proof {
        reveal_strlit("#[serde(flatten)]");
        reveal_strlit("#[serde(skip)]");
        reveal_strlit("#[serde(skip_serializing)]");
    }
    match u {
        Unstorable::Flatten => "#[serde(flatten)]",
        Unstorable::Skip => "#[serde(skip)]",
        Unstorable::SkipSerializing => "#[serde(skip_serializing)]",
    }
}

/// The failure of a never-stored field named in a partial filter.
fn never_filters_error(name: &Name, u: Unstorable, span: usize) -> (r: AttrError)
    ensures
        r@ == never_filters(name@, u, span),
{
    let mut message = owned("`");
    push_str(&mut message, shown_of(name).as_str());
    push_str(&mut message, "` carries ");
    push_str(&mut message, unstorable_attr(u));
    push_str(&mut message, ", so it is never stored and cannot filter an index");
    AttrError { span, message }
}

/// Why a partial filter names a field that is never stored; see
/// [`partial_storable`].
fn partial_check(model: &StructModel, decl: &IndexDecl) -> (r: Option<AttrError>)
    ensures
        match partial_storable(model@, decl@.partial) {
            Some(e) => r matches Some(x) && x@ == e,
            None => r is None,
        },
{
    match &decl.partial {
        Some(PartialDecl::Shorthand { field, .. }) => match lookup_field(&model.fields, &field.text) {
            Some(i) => match model.fields[i].unstorable {
                Some(u) => Some(never_filters_error(field, u, field.span)),
                None => None,
            },
            None => None,
        },
        _ => None,
    }
}

/// The stored name a partial filter's shorthand field stands for: the
/// field's stored name, or the name as written when it names no field.
pub fn partial_stored_name(model: &StructModel, field: &Name) -> (r: String)
    ensures
        r@ == match find_field(model@.fields, field@.text) {
            Some(f) => f.stored_name,
            None => field@.text,
        },
{
    match lookup_field(&model.fields, &field.text) {
        Some(i) => model.fields[i].stored_name.clone(),
        None => field.text.clone(),
    }
}

/// The stored field that `ident` names; see [`storable_spec`].
pub fn storable_field<'m>(model: &'m StructModel, ident: &Name, purpose: &str) -> (r: Result<&'m FieldModel, AttrError>)
    ensures
        match storable_spec(model@, ident@, purpose@) {
            Ok(f) => r matches Ok(x) && x@ == f,
            Err(e) => r matches Err(x) && x@ == e,
        },
{
    match lookup_field(&model.fields, &ident.text) {
        None => {
            let mut message = owned("`");
            push_str(&mut message, shown_of(ident).as_str());
            push_str(&mut message, "` is not a field of `");
            push_str(&mut message, shown_of(&model.ident).as_str());
            push_str(&mut message, "`");
            Err(AttrError { span: ident.span, message })
        },
        Some(i) => {
            let field = &model.fields[i];
            match field.unstorable {
                Some(u) => {
                    let mut message = owned("`");
                    push_str(&mut message, shown_of(ident).as_str());
                    push_str(&mut message, "` carries ");
                    push_str(&mut message, unstorable_attr(u));
                    push_str(&mut message, ", so it is never stored");
                    push_str(&mut message, purpose);
                    Err(AttrError { span: ident.span, message })
                },
                None => Ok(field),
            }
        },
    }
}

fn id_key(k: &crate::index_attr::KeyDecl) -> (b: bool)
    ensures
        b == is_id_key(k@),
{
    match &k.field {
        Some(f) => str_eq(f.text.as_str(), "_id"),
        None => false,
    }
}

fn path_of(k: &crate::index_attr::KeyDecl) -> (p: String)
    ensures
        p@ == key_path(k@),
{
    match &k.field {
        None => owned("$**"),
        Some(f) => {
            let mut p = f.text.clone();
            if k.kind == KeyKindDecl::FieldWildcard {
                push_str(&mut p, ".$**");
            }
            p
        },
    }
}

/// Why an index declaration is unsound, if it is; see [`validate_spec`].
pub fn validate_decl(model: &StructModel, decl: &IndexDecl) -> (r: Option<AttrError>)
    ensures
        match validate_spec(model@, decl@) {
            Some(e) => r matches Some(x) && x@ == e,
            None => r is None,
        },
{
    let ghost kv = decl@.keys;
    let mut i: usize = 0;
    while i < decl.keys.len()
        invariant
            i <= decl.keys@.len(),
            kv == decl@.keys,
            kv.len() == decl.keys@.len(),
            keys_storable(model@, kv, i as int) is None,
        decreases decl.keys.len() - i,
    {
        let key = &decl.keys[i];
        assert(kv[i as int] == key@);
        if !id_key(key) {
            match &key.field {
                Some(f) => {
                    match storable_field(model, f, " and cannot be indexed") {
                        Err(e) => {
                            proof { lemma_keys_storable_stays(model@, kv, i as int + 1); }
                            return Some(e);
                        },
                        Ok(_) => {},
                    }
                },
                None => {},
            }
        }
        i = i + 1;
    }
    let partial = partial_check(model, decl);
    if partial.is_some() {
        return partial;
    }
    let mut i: usize = 0;
    while i < decl.keys.len()
        invariant
            i <= decl.keys@.len(),
            kv == decl@.keys,
            kv.len() == decl.keys@.len(),
            first_repeat(kv, i as int) is None,
            keys_storable(model@, kv, kv.len() as int) is None,
            partial_storable(model@, decl@.partial) is None,
        decreases decl.keys.len() - i,
    {
        let p = path_of(&decl.keys[i]);
        let mut j: usize = 0;
        while j < i
            invariant
                j <= i < kv.len(),
                kv == decl@.keys,
                kv.len() == decl.keys@.len(),
                p@ == key_path(kv[i as int]),
                first_repeat(kv, i as int) is None,
                keys_storable(model@, kv, kv.len() as int) is None,
                partial_storable(model@, decl@.partial) is None,
                forall|t: int| 0 <= t < j ==> #[trigger] key_path(kv[t]) != key_path(kv[i as int]),
            decreases i - j,
        {
            let q = path_of(&decl.keys[j]);
            if str_eq(q.as_str(), p.as_str()) {
                proof {
                    assert(key_path(kv[j as int]) == key_path(kv[i as int]));
                    assert(exists|t: int| 0 <= t < i && #[trigger] key_path(kv[t]) == key_path(kv[i as int]));
                    let n1: int = i + 1;
                    assert(first_repeat(kv, n1 - 1) is None);
                    assert(kv[n1 - 1] == kv[i as int]);
                    assert(exists|t: int| 0 <= t < n1 - 1 && #[trigger] key_path(kv[t]) == key_path(kv[n1 - 1]));
                    assert(first_repeat(kv, n1) == Some(i as int));
                    lemma_first_repeat_stays(kv, i as int + 1);
                }
                let mut message = owned("`");
                push_str(&mut message, p.as_str());
                push_str(&mut message, "` appears twice in this index's keys");
                return Some(AttrError { span: decl.keys[i].span, message });
            }
            j = j + 1;
        }
        i = i + 1;
    }
    if decl.keys.len() == 1 && id_key(&decl.keys[0]) && decl.keys[0].kind == KeyKindDecl::Asc {
        return Some(error(
            decl.keys[0].span,
            "a one-key `_id` index restates the server's built-in `_id_` index. Remove it",
        ));
    }
    None
}

proof fn lemma_keys_storable_stays(base: StructV, keys: Seq<KeyV>, n: int)
    requires
        0 <= n <= keys.len(),
        keys_storable(base, keys, n) is Some,
    ensures
        keys_storable(base, keys, keys.len() as int) == keys_storable(base, keys, n),
    decreases keys.len() - n,
{
    if n < keys.len() {
        lemma_keys_storable_stays(base, keys, n + 1);
    }
}

proof fn lemma_first_repeat_stays(keys: Seq<KeyV>, n: int)
    requires
        0 <= n <= keys.len(),
        first_repeat(keys, n) is Some,
    ensures
        first_repeat(keys, keys.len() as int) == first_repeat(keys, n),
    decreases keys.len() - n,
{
    if n < keys.len() {
        lemma_first_repeat_stays(keys, n + 1);
    }
}

/// Every index attribute's tokens fit a `usize` count.
pub open spec fn attrs_fit(attrs: Seq<IndexAttr>) -> bool {
    forall|i: int| 0 <= i < attrs.len() ==> (#[trigger] attrs[i] matches IndexAttr::Tokens { tokens, .. } ==> fits(tokens@))
}

/// The declarations of the index attributes that parse, and the failures of
/// the others; see [`index_fold`].
pub fn parse_indexes(attrs: &Vec<IndexAttr>) -> (r: (Vec<IndexDecl>, Vec<AttrError>))
    requires
        attrs_fit(attrs@),
    ensures
        decls_view(r.0@) == index_fold(attrs@, attrs@.len() as int).0,
        errs_view(r.1@) == index_fold(attrs@, attrs@.len() as int).1,
{
    let mut decls: Vec<IndexDecl> = Vec::new();
    let mut errors: Vec<AttrError> = Vec::new();
    let mut i: usize = 0;
    while i < attrs.len()
        invariant
            i <= attrs@.len(),
            attrs_fit(attrs@),
            decls_view(decls@) == index_fold(attrs@, i as int).0,
            errs_view(errors@) == index_fold(attrs@, i as int).1,
        decreases attrs.len() - i,
    {
        let ghost d0 = decls_view(decls@);
        let ghost e0 = errs_view(errors@);
        match &attrs[i] {
            IndexAttr::Tokens { tokens, end } => {
                assert(attrs@[i as int] matches IndexAttr::Tokens { tokens, .. });
                match IndexDecl::parse(tokens, *end) {
                    Ok(d) => {
                        let ghost dv = d@;
                        decls.push(d);
                        assert(decls_view(decls@) =~= d0.push(dv));
                    },
                    Err(e) => {
                        let ghost ev = e@;
                        errors.push(e);
                        assert(errs_view(errors@) =~= e0.push(ev));
                    },
                }
            },
            IndexAttr::Malformed(e) => {
                let copy = AttrError { span: e.span, message: e.message.clone() };
                errors.push(copy);
                assert(errs_view(errors@) =~= e0.push(e@));
            },
        }
        i = i + 1;
    }
    (decls, errors)
}

/// The failures of the unsound index declarations, in order.
pub fn validate_indexes(model: &StructModel, decls: &Vec<IndexDecl>) -> (r: Vec<AttrError>)
    ensures
        errs_view(r@) == validate_fold(model@, decls_view(decls@), decls@.len() as int),
{
    let ghost dv = decls_view(decls@);
    let mut errors: Vec<AttrError> = Vec::new();
    let mut i: usize = 0;
    while i < decls.len()
        invariant
            i <= decls@.len(),
            dv == decls_view(decls@),
            errs_view(errors@) == validate_fold(model@, dv, i as int),
        decreases decls.len() - i,
    {
        assert(dv[i as int] == decls@[i as int]@);
        let ghost e0 = errs_view(errors@);
        match validate_decl(model, &decls[i]) {
            Some(e) => {
                let ghost ev = e@;
                errors.push(e);
                assert(errs_view(errors@) =~= e0.push(ev));
            },
            None => {},
        }
        i = i + 1;
    }
    errors
}

/// An entity declaration's model, or what is wrong with it; see
/// [`entity_spec`].
pub fn parse_entity(f: &EntityFacts) -> (r: Result<EntityModel, Vec<AttrError>>)
    requires
        f.base.fields@.len() < usize::MAX,
        attrs_fit(f.indexes@),
    ensures
        match entity_spec(*f) {
            Ok(m) => r matches Ok(x) && x@ == m,
            Err(e) => r matches Err(x) && errs_view(x@) == e,
        },
{
    let base = match parse_struct(&f.base, DeriveKind::Entity) {
        Ok(b) => b,
        Err(e) => return Err(e),
    };
    match reject_misplaced_attrs(&f.field_attrs) {
        Some(e) => {
            let v = vec![e];
            assert(errs_view(v@) =~= seq![v@[0]@]);
            return Err(v);
        },
        None => {},
    }
    let (collection, id_type, version) = match entity_options(&f.options) {
        Ok(x) => x,
        Err(e) => {
            let v = vec![e];
            assert(errs_view(v@) =~= seq![v@[0]@]);
            return Err(v);
        },
    };
    let collection = match collection {
        Some(c) => c,
        None => {
            let v = vec![error(base.ident.span, "missing `#[entity(collection = \"...\")]`")];
            assert(errs_view(v@) =~= seq![v@[0]@]);
            return Err(v);
        },
    };
    match &version {
        Some(v) => match find_lock_clash(&base.fields, v) {
            Some(i) => {
                let mut message = owned("the stored name `");
                push_str(&mut message, v.as_str());
                push_str(&mut message, "` is reserved for the version lock. Rename the field, or the lock with `versioned = \"...\"`");
                let e = AttrError { span: base.fields[i].ident.span, message };
                let errs = vec![e];
                assert(errs_view(errs@) =~= seq![errs@[0]@]);
                return Err(errs);
            },
            None => {},
        },
        None => {},
    }
    let (indexes, errors) = parse_indexes(&f.indexes);
    if errors.len() > 0 {
        return Err(errors);
    }
    let verrors = validate_indexes(&base, &indexes);
    if verrors.len() > 0 {
        return Err(verrors);
    }
    Ok(EntityModel { base, collection, id_type, version, indexes })
}

/// The stored path an index key names: `$**` for a whole-document wildcard,
/// `_id` for the id itself, otherwise the field's stored name, followed by
/// `.$**` for a field wildcard.
pub open spec fn stored_key_path_spec(base: StructV, k: KeyV) -> Seq<char> {
    match k.field {
        None => "$**"@,
        Some(f) => if f.text == "_id"@ && k.kind != KeyKindDecl::FieldWildcard {
            "_id"@
        } else {
            let stored = find_field(base.fields, f.text)->0.stored_name;
            if k.kind == KeyKindDecl::FieldWildcard {
                stored + ".$**"@
            } else {
                stored
            }
        },
    }
}

/// The stored path a key of a validated declaration names; see
/// [`stored_key_path_spec`].
pub fn stored_key_path(model: &StructModel, key: &crate::index_attr::KeyDecl) -> (r: String)
    requires
        key@.field matches Some(f) ==> (f.text == "_id"@ && key@.kind != KeyKindDecl::FieldWildcard)
            || find_field(model@.fields, f.text) is Some,
    ensures
        r@ == stored_key_path_spec(model@, key@),
{
    match &key.field {
        None => owned("$**"),
        Some(f) => {
            if str_eq(f.text.as_str(), "_id") && key.kind != KeyKindDecl::FieldWildcard {
                return owned("_id");
            }
            let i = match lookup_field(&model.fields, &f.text) {
                Some(i) => i,
                None => {
                    proof {
                        assert(false);
                    }
                    return owned("");
                },
            };
            let mut path = model.fields[i].stored_name.clone();
            if key.kind == KeyKindDecl::FieldWildcard {
                push_str(&mut path, ".$**");
            }
            path
        },
    }
}

/// No earlier field claims `stored` when the search finds no claim.
proof fn lemma_no_claim(earlier: Seq<FieldV>, stored: Seq<char>)
    requires
        first_claim(earlier, stored) is None,
    ensures
        forall|i: int| 0 <= i < earlier.len() ==> !((#[trigger] earlier[i]).occupies() && earlier[i].stored_name == stored),
    decreases earlier.len(),
{
    if earlier.len() > 0 {
        lemma_no_claim(earlier.drop_last(), stored);
        assert forall|i: int| 0 <= i < earlier.len() implies !((#[trigger] earlier[i]).occupies() && earlier[i].stored_name == stored) by {
            if i < earlier.len() - 1 {
                assert(earlier.drop_last()[i] == earlier[i]);
            }
        }
    }
}

/// The sound fields among the first `n` take up distinct stored names.
proof fn lemma_fold_distinct(fs: Seq<FieldFacts>, n: int, kind: DeriveKind, split: bool)
    ensures
        forall|i: int, j: int| 0 <= i < j < fields_fold(fs, n, kind, split).0.len()
            && (#[trigger] fields_fold(fs, n, kind, split).0[i]).occupies()
            && (#[trigger] fields_fold(fs, n, kind, split).0[j]).occupies()
            ==> fields_fold(fs, n, kind, split).0[i].stored_name != fields_fold(fs, n, kind, split).0[j].stored_name,
    decreases n,
{
    if n > 0 {
        lemma_fold_distinct(fs, n - 1, kind, split);
        let (models, errs) = fields_fold(fs, n - 1, kind, split);
        match field_spec(fs[n - 1], (n - 1) as usize, kind, split, models) {
            Ok(m) => {
                let all = models.push(m);
                assert(fields_fold(fs, n, kind, split).0 == all);
                if m.occupies() {
                    assert(first_claim(models, m.stored_name) is None);
                    lemma_no_claim(models, m.stored_name);
                }
                assert forall|i: int, j: int| 0 <= i < j < all.len() && (#[trigger] all[i]).occupies() && (#[trigger] all[j]).occupies()
                    implies all[i].stored_name != all[j].stored_name by {
                    if j == all.len() - 1 {
                        assert(all[i] == models[i]);
                    } else {
                        assert(all[i] == models[i] && all[j] == models[j]);
                    }
                }
            },
            Err(_) => {},
        }
    }
}

/// In a sound declaration, no two stored fields share a stored name, and
/// each field is stored under its serialized name.
pub proof fn lemma_stored_names_distinct(s: StructFacts, kind: DeriveKind)
    requires
        struct_spec(s, kind) is Ok,
    ensures
        ({
            let fields = struct_spec(s, kind)->Ok_0.fields;
            &&& forall|i: int, j: int| 0 <= i < j < fields.len() && (#[trigger] fields[i]).occupies() && (#[trigger] fields[j]).occupies()
                ==> fields[i].stored_name != fields[j].stored_name
            &&& forall|i: int| 0 <= i < fields.len() ==> (#[trigger] fields[i]).stored_name == s.fields@[fields[i].position as int].serialize_name@
        }),
{
    lemma_fold_distinct(s.fields@, s.fields@.len() as int, kind, s.split_rename_all);
    assert(s.fields@.len() == s.fields.len());
    lemma_fold_names(s.fields@, s.fields@.len() as int, kind, s.split_rename_all);
}

/// Each sound field among the first `n` is stored under its serialized name,
/// and its position is its place among them.
proof fn lemma_fold_names(fs: Seq<FieldFacts>, n: int, kind: DeriveKind, split: bool)
    requires
        n <= fs.len() <= usize::MAX,
    ensures
        forall|i: int| 0 <= i < fields_fold(fs, n, kind, split).0.len() ==> {
            let f = #[trigger] fields_fold(fs, n, kind, split).0[i];
            &&& 0 <= f.position < n
            &&& f.stored_name == fs[f.position as int].serialize_name@
        },
    decreases n,
{
    if n > 0 {
        lemma_fold_names(fs, n - 1, kind, split);
        let (models, errs) = fields_fold(fs, n - 1, kind, split);
        match field_spec(fs[n - 1], (n - 1) as usize, kind, split, models) {
            Ok(m) => {
                let all = models.push(m);
                assert forall|i: int| 0 <= i < all.len() implies {
                    let f = #[trigger] all[i];
                    &&& 0 <= f.position < n
                    &&& f.stored_name == fs[f.position as int].serialize_name@
                } by {
                    if i < all.len() - 1 {
                        assert(all[i] == models[i]);
                    } else {
                        assert(all[i] == m);
                        assert(m.position == (n - 1) as usize);
                    }
                }
            },
            Err(_) => {},
        }
    }
}

/// The sound fields among the first `n` of an entity declaration: none that
/// is stored holds `_id` or a name with a `.`.
proof fn lemma_fold_stored_names(fs: Seq<FieldFacts>, n: int, split: bool)
    ensures
        forall|i: int| 0 <= i < fields_fold(fs, n, DeriveKind::Entity, split).0.len()
            && (#[trigger] fields_fold(fs, n, DeriveKind::Entity, split).0[i]).unstorable is None
            ==> fields_fold(fs, n, DeriveKind::Entity, split).0[i].stored_name != "_id"@
                && !fields_fold(fs, n, DeriveKind::Entity, split).0[i].stored_name.contains('.'),
    decreases n,
{
    if n > 0 {
        lemma_fold_stored_names(fs, n - 1, split);
        let (models, errs) = fields_fold(fs, n - 1, DeriveKind::Entity, split);
        match field_spec(fs[n - 1], (n - 1) as usize, DeriveKind::Entity, split, models) {
            Ok(m) => {
                let all = models.push(m);
                assert forall|i: int| 0 <= i < all.len() && (#[trigger] all[i]).unstorable is None
                    implies all[i].stored_name != "_id"@ && !all[i].stored_name.contains('.') by {
                    if i < all.len() - 1 {
                        assert(all[i] == models[i]);
                    }
                }
            },
            Err(_) => {},
        }
    }
}

/// In a sound entity declaration, no stored field holds `_id`, a name with a
/// `.`, or the lock's name.
pub proof fn lemma_entity_names_are_free(f: EntityFacts)
    requires
        entity_spec(f) is Ok,
    ensures
        ({
            let m = entity_spec(f)->Ok_0;
            &&& forall|i: int| 0 <= i < m.base.fields.len() && (#[trigger] m.base.fields[i]).unstorable is None
                ==> m.base.fields[i].stored_name != "_id"@ && !m.base.fields[i].stored_name.contains('.')
            &&& forall|i: int| 0 <= i < m.base.fields.len() && m.version is Some
                && (#[trigger] m.base.fields[i]).occupies() && m.base.fields[i].unstorable is None
                ==> m.base.fields[i].stored_name != m.version->0
        }),
{
    let base = struct_spec(f.base, DeriveKind::Entity)->Ok_0;
    lemma_fold_stored_names(f.base.fields@, f.base.fields@.len() as int, f.base.split_rename_all);
    let m = entity_spec(f)->Ok_0;
    if m.version is Some {
        lemma_no_lock_clash(base.fields, m.version->0);
    }
}

/// No field clashes with the lock when the search finds no clash.
proof fn lemma_no_lock_clash(fields: Seq<FieldV>, version: Seq<char>)
    requires
        lock_clash(fields, version) is None,
    ensures
        forall|i: int| 0 <= i < fields.len() ==> !((#[trigger] fields[i]).occupies() && fields[i].unstorable is None
            && fields[i].stored_name == version),
    decreases fields.len(),
{
    if fields.len() > 0 {
        lemma_no_lock_clash(fields.drop_last(), version);
        assert forall|i: int| 0 <= i < fields.len() implies !((#[trigger] fields[i]).occupies() && fields[i].unstorable is None
            && fields[i].stored_name == version) by {
            if i < fields.len() - 1 {
                assert(fields.drop_last()[i] == fields[i]);
            }
        }
    }
}

} // verus!

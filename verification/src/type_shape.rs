//! The type a field's path carries: the field's written type with boxes
//! looked through, also inside options and vectors.
//!
//! A written type is given by its shape; each node carries the number of the
//! written type it stands for, so that the result can name the parts to keep.
use vstd::prelude::*;

use crate::text::str_eq;

verus! {

broadcast use vstd::string::group_string_axioms;

/// One generic argument of a path's last segment.
pub enum GenericArg {
    /// A type argument.
    Type(TypeShape),
    /// A lifetime or a const argument.
    NotType,
}

/// The shape of a written type.
pub enum TypeShape {
    /// A path type: its last segment's name, and that segment's
    /// angle-bracketed arguments (`None` when it has none or has others).
    Path { source: usize, last: String, args: Option<Vec<GenericArg>> },
    /// An invisible group or parentheses around a type.
    Group { source: usize, inner: Box<TypeShape> },
    /// Any other type.
    Other { source: usize },
}

/// The type a path carries, in terms of the written types.
pub enum TypeOut {
    /// The written type numbered `source`, as it is.
    Same(usize),
    /// The path type numbered `source` with its first argument replaced.
    Rewrap { source: usize, inner: Box<TypeOut> },
}

impl TypeShape {
    pub open spec fn source(self) -> usize {
        match self {
            TypeShape::Path { source, .. } => source,
            TypeShape::Group { source, .. } => source,
            TypeShape::Other { source } => source,
        }
    }
}

/// The type inside any groups and parentheses.
pub open spec fn peeled(t: TypeShape) -> TypeShape
    decreases t,
{
    match t {
        TypeShape::Group { inner, .. } => peeled(*inner),
        _ => t,
    }
}

/// The type argument of `t` when `t` (inside its groups) is the path
/// `wrapper<T>` with exactly one argument, a type.
pub open spec fn wrapped(t: TypeShape, wrapper: Seq<char>) -> Option<TypeShape> {
    match peeled(t) {
        TypeShape::Path { last, args: Some(a), .. } => if last@ == wrapper && a.len() == 1 {
            match a[0] {
                GenericArg::Type(inner) => Some(inner),
                GenericArg::NotType => None,
            }
        } else {
            None
        },
        _ => None,
    }
}

/// A field's type as its path carries it: a `Box` is looked through; an
/// `Option` or a `Vec` keeps its wrapper around the carried type of its
/// item; any other type is kept as written.
pub open spec fn carried(t: TypeShape) -> TypeOut
    decreases t,
{
    match wrapped(t, "Box"@) {
        Some(inner) => {
            proof {
                lemma_wrapped_smaller(t, "Box"@);
            }
            carried(inner)
        },
        None => match wrapped(t, "Option"@) {
            Some(inner) => {
                proof {
                    lemma_wrapped_smaller(t, "Option"@);
                }
                TypeOut::Rewrap { source: peeled(t).source(), inner: Box::new(carried(inner)) }
            },
            None => match wrapped(t, "Vec"@) {
                Some(inner) => {
                    proof {
                        lemma_wrapped_smaller(t, "Vec"@);
                    }
                    TypeOut::Rewrap { source: peeled(t).source(), inner: Box::new(carried(inner)) }
                },
                None => TypeOut::Same(t.source()),
            },
        },
    }
}

/// A type's argument is smaller than the type.
pub proof fn lemma_wrapped_smaller(t: TypeShape, wrapper: Seq<char>)
    requires
        wrapped(t, wrapper) is Some,
    ensures
        decreases_to!(t => wrapped(t, wrapper)->Some_0),
    decreases t,
{
    match t {
        TypeShape::Group { inner, .. } => {
            lemma_wrapped_smaller(*inner, wrapper);
            assert(decreases_to!(t => *inner));
        },
        TypeShape::Path { args, .. } => {
            let a = args->Some_0;
            assert(decreases_to!(t => args));
            assert(decreases_to!(args => a));
            assert(decreases_to!(a => a@));
            assert(decreases_to!(a@ => a@[0]));
            assert(decreases_to!(a@[0] => a@[0]->Type_0));
        },
        TypeShape::Other { .. } => {},
    }
}

/// The type inside any groups and parentheses.
fn peel(t: &TypeShape) -> (r: &TypeShape)
    ensures
        *r == peeled(*t),
    decreases t,
{
    match t {
        TypeShape::Group { inner, .. } => peel(inner),
        _ => t,
    }
}

/// The type argument of `t` when it is the path `wrapper<T>`; see
/// [`wrapped`].
fn wrapper_inner_type<'a>(t: &'a TypeShape, wrapper: &str) -> (r: Option<&'a TypeShape>)
    ensures
        match wrapped(*t, wrapper@) {
            Some(inner) => r == Some(&inner),
            None => r is None,
        },
{
    match peel(t) {
        TypeShape::Path { last, args: Some(a), .. } => {
            if str_eq(last.as_str(), wrapper) && a.len() == 1 {
                match &a[0] {
                    GenericArg::Type(inner) => Some(inner),
                    GenericArg::NotType => None,
                }
            } else {
                None
            }
        },
        _ => None,
    }
}

/// The number of a written type.
fn source_of(t: &TypeShape) -> (s: usize)
    ensures
        s == t.source(),
{
    match t {
        TypeShape::Path { source, .. } => *source,
        TypeShape::Group { source, .. } => *source,
        TypeShape::Other { source } => *source,
    }
}

/// The type a field's path carries; see [`carried`].
pub fn token_type(t: &TypeShape) -> (r: TypeOut)
    ensures
        r == carried(*t),
    decreases t,
{
    match wrapper_inner_type(t, "Box") {
        Some(inner) => {
            proof {
                reveal_strlit("Box");
                lemma_wrapped_smaller(*t, "Box"@);
            }
            return token_type(inner);
        },
        None => {},
    }
    proof {
        reveal_strlit("Option");
        reveal_strlit("Vec");
        reveal_strlit("Box");
    }
    match wrapper_inner_type(t, "Option") {
        Some(inner) => {
            proof {
                lemma_wrapped_smaller(*t, "Option"@);
            }
            let carried_inner = token_type(inner);
            return TypeOut::Rewrap { source: source_of(peel(t)), inner: Box::new(carried_inner) };
        },
        None => {},
    }
    match wrapper_inner_type(t, "Vec") {
        Some(inner) => {
            proof {
                lemma_wrapped_smaller(*t, "Vec"@);
            }
            let carried_inner = token_type(inner);
            TypeOut::Rewrap { source: source_of(peel(t)), inner: Box::new(carried_inner) }
        },
        None => TypeOut::Same(source_of(t)),
    }
}

} // verus!

//! What kind of type an annotation or a returned expression has.
use crate::types::{ids_in_range, Literal, ReturnType, TypeData, TypeGraph, TypeId};
use vstd::prelude::*;

verus! {

/// The annotation says nothing that could be narrowed.
pub open spec fn escape_hatch(graph: &TypeGraph, ty: TypeId) -> bool {
    match graph.data_of(ty) {
        TypeData::AnyKeyword => true,
        TypeData::VoidKeyword => true,
        TypeData::UnknownKeyword => true,
        TypeData::NeverKeyword => true,
        TypeData::Unknown => true,
        TypeData::ThisKeyword => true,
        _ => false,
    }
}

/// Whether the annotation says nothing that could be narrowed.
pub fn is_escape_hatch(graph: &TypeGraph, ty: TypeId) -> (found: bool)
    requires
        ty < graph.size(),
    ensures
        found == escape_hatch(graph, ty),
{
    matches!(
        graph.data(ty),
        TypeData::AnyKeyword
            | TypeData::VoidKeyword
            | TypeData::UnknownKeyword
            | TypeData::NeverKeyword
            | TypeData::Unknown
            | TypeData::ThisKeyword
    )
}

/// The type that a function type returns.
pub open spec fn return_type_of(graph: &TypeGraph, func_type: TypeId) -> Option<TypeId> {
    match graph.data_of(func_type) {
        TypeData::Function {
            type_parameters: _,
            parameters: _,
            return_type: ReturnType::Type(reference),
        } => graph.resolved(func_type, reference),
        _ => None,
    }
}

/// The type that a function type returns, if it is a function type whose
/// return type is known.
pub fn extract_return_type(graph: &TypeGraph, func_type: TypeId) -> (found: Option<TypeId>)
    requires
        graph.well_formed(),
        func_type < graph.size(),
    ensures
        found == return_type_of(graph, func_type),
        found matches Some(ty) ==> ty < graph.size(),
{
    match graph.data(func_type) {
        TypeData::Function { return_type: ReturnType::Type(reference), .. } => {
            graph.resolve(func_type, *reference)
        },
        _ => None,
    }
}

/// The type inside a promise, if it is one that says something.
pub open spec fn promised(graph: &TypeGraph, ty: TypeId) -> Option<TypeId> {
    match graph.data_of(ty) {
        TypeData::InstanceOf { ty: _, type_parameters } => if type_parameters@.len() > 0 {
            match graph.resolved(ty, type_parameters@[0]) {
                Some(inner) => if escape_hatch(graph, inner) {
                    None
                } else {
                    Some(inner)
                },
                None => None,
            }
        } else {
            None
        },
        _ => None,
    }
}

/// The type that the return expressions of an async function are compared with.
pub open spec fn promise_unwrapped(graph: &TypeGraph, ty: TypeId) -> TypeId {
    match promised(graph, ty) {
        Some(inner) => inner,
        None => ty,
    }
}

/// For async functions the annotation is `Promise<T>`. This gives `T`, to
/// compare it with the return expressions, which are not wrapped in `Promise`.
pub fn unwrap_promise_inner(graph: &TypeGraph, return_ty: TypeId) -> (inner: TypeId)
    requires
        graph.well_formed(),
        return_ty < graph.size(),
    ensures
        inner == promise_unwrapped(graph, return_ty),
        inner < graph.size(),
{
    if let TypeData::InstanceOf { type_parameters, .. } = graph.data(return_ty) {
        if type_parameters.len() > 0 {
            if let Some(inner) = graph.resolve(return_ty, type_parameters[0]) {
                if !is_escape_hatch(graph, inner) {
                    return inner;
                }
            }
        }
    }
    return_ty
}

/// `undefined`, or `void`, which admits it.
pub open spec fn undefined_type(graph: &TypeGraph, ty: TypeId) -> bool {
    graph.data_of(ty) is Undefined || graph.data_of(ty) is VoidKeyword
}

/// The type is `undefined` or `void`, or a union with such a variant.
pub open spec fn admits_undefined(graph: &TypeGraph, ty: TypeId) -> bool {
    ||| undefined_type(graph, ty)
    ||| exists|i: int|
        0 <= i < graph.variants_of(ty).len() && undefined_type(
            graph,
            #[trigger] graph.variants_of(ty)[i],
        )
}

fn is_undefined(graph: &TypeGraph, ty: TypeId) -> (found: bool)
    requires
        ty < graph.size(),
    ensures
        found == undefined_type(graph, ty),
{
    matches!(graph.data(ty), TypeData::Undefined | TypeData::VoidKeyword)
}

/// Whether the type admits `undefined`.
pub fn includes_undefined(graph: &TypeGraph, ty: TypeId) -> (found: bool)
    requires
        graph.well_formed(),
        ty < graph.size(),
    ensures
        found == admits_undefined(graph, ty),
{
    if is_undefined(graph, ty) {
        return true;
    }
    let variants = graph.flattened_union_variants(ty);
    let mut i: usize = 0;
    while i < variants.len()
        invariant
            i <= variants@.len(),
            variants@ == graph.variants_of(ty),
            ids_in_range(variants@, graph.size()),
            forall|j: int| 0 <= j < i ==> !undefined_type(graph, #[trigger] variants@[j]),
        decreases variants@.len() - i,
    {
        if is_undefined(graph, variants[i]) {
            assert(undefined_type(graph, graph.variants_of(ty)[i as int]));
            return true;
        }
        i = i + 1;
    }
    false
}

/// The type is `any`, or a union with such a variant.
pub open spec fn any_contaminated(graph: &TypeGraph, ty: TypeId) -> bool {
    ||| graph.data_of(ty) is AnyKeyword
    ||| exists|i: int|
        0 <= i < graph.variants_of(ty).len() && graph.data_of(
            #[trigger] graph.variants_of(ty)[i],
        ) is AnyKeyword
}

/// Whether the type is `any`, or a union with such a variant.
pub fn is_any_contaminated(graph: &TypeGraph, ty: TypeId) -> (found: bool)
    requires
        graph.well_formed(),
        ty < graph.size(),
    ensures
        found == any_contaminated(graph, ty),
{
    if matches!(graph.data(ty), TypeData::AnyKeyword) {
        return true;
    }
    let variants = graph.flattened_union_variants(ty);
    let mut i: usize = 0;
    while i < variants.len()
        invariant
            i <= variants@.len(),
            variants@ == graph.variants_of(ty),
            ids_in_range(variants@, graph.size()),
            forall|j: int|
                0 <= j < i ==> !(graph.data_of(#[trigger] variants@[j]) is AnyKeyword),
        decreases variants@.len() - i,
    {
        if matches!(graph.data(variants[i]), TypeData::AnyKeyword) {
            assert(graph.data_of(graph.variants_of(ty)[i as int]) is AnyKeyword);
            return true;
        }
        i = i + 1;
    }
    false
}

/// A union with a variant that is not known.
pub open spec fn union_with_unknown(graph: &TypeGraph, ty: TypeId) -> bool {
    exists|i: int|
        0 <= i < graph.variants_of(ty).len() && {
            let variant = #[trigger] graph.variants_of(ty)[i];
            graph.data_of(variant) is UnknownKeyword || graph.data_of(variant) is Unknown
        }
}

/// Whether the type is a union with a variant that is not known. Any such
/// union collapses to `unknown`.
pub fn is_union_with_unknown(graph: &TypeGraph, ty: TypeId) -> (found: bool)
    requires
        graph.well_formed(),
        ty < graph.size(),
    ensures
        found == union_with_unknown(graph, ty),
{
    let variants = graph.flattened_union_variants(ty);
    let mut i: usize = 0;
    while i < variants.len()
        invariant
            i <= variants@.len(),
            variants@ == graph.variants_of(ty),
            ids_in_range(variants@, graph.size()),
            forall|j: int|
                0 <= j < i ==> {
                    let variant = #[trigger] variants@[j];
                    !(graph.data_of(variant) is UnknownKeyword)
                        && !(graph.data_of(variant) is Unknown)
                },
        decreases variants@.len() - i,
    {
        if matches!(graph.data(variants[i]), TypeData::UnknownKeyword | TypeData::Unknown) {
            assert(graph.variants_of(ty)[i as int] == variants@[i as int]);
            return true;
        }
        i = i + 1;
    }
    false
}

/// An intersection of which some member is a type parameter.
pub open spec fn intersection_with_type_param(graph: &TypeGraph, ty: TypeId) -> bool {
    match graph.data_of(ty) {
        TypeData::Intersection { types } => exists|i: int|
            0 <= i < types@.len() && (match graph.resolved(ty, #[trigger] types@[i]) {
                Some(member) => graph.data_of(member) is Generic,
                None => false,
            }),
        _ => false,
    }
}

/// Whether the type is an intersection of which some member is a type parameter.
pub fn is_intersection_with_type_param(graph: &TypeGraph, ty: TypeId) -> (found: bool)
    requires
        graph.well_formed(),
        ty < graph.size(),
    ensures
        found == intersection_with_type_param(graph, ty),
{
    match graph.data(ty) {
        TypeData::Intersection { types } => {
            let mut i: usize = 0;
            while i < types.len()
                invariant
                    graph.well_formed(),
                    ty < graph.size(),
                    i <= types@.len(),
                    forall|j: int|
                        0 <= j < i ==> match graph.resolved(ty, #[trigger] types@[j]) {
                            Some(member) => !(graph.data_of(member) is Generic),
                            None => true,
                        },
                    graph.data_of(ty) is Intersection,
                    graph.data_of(ty)->types == *types,
                decreases types@.len() - i,
            {
                if let Some(member) = graph.resolve(ty, types[i]) {
                    if matches!(graph.data(member), TypeData::Generic { .. }) {
                        return true;
                    }
                }
                i = i + 1;
            }
            false
        },
        _ => false,
    }
}

/// A literal of a primitive type: not an object, nor a regular expression.
pub open spec fn primitive_literal(literal: Literal) -> bool {
    match literal {
        Literal::Object(_) => false,
        Literal::RegExp { .. } => false,
        _ => true,
    }
}

/// The type is a literal of a primitive type.
pub open spec fn primitive_literal_type(graph: &TypeGraph, ty: TypeId) -> bool {
    match graph.data_of(ty) {
        TypeData::Literal(literal) => primitive_literal(literal),
        _ => false,
    }
}

/// The type is a literal of a primitive type, or a union of just one.
pub open spec fn literal_of_primitive(graph: &TypeGraph, ty: TypeId) -> bool {
    ||| primitive_literal_type(graph, ty)
    ||| graph.variants_of(ty).len() == 1 && primitive_literal_type(graph, graph.variants_of(ty)[0])
}

fn is_primitive_literal_type(graph: &TypeGraph, ty: TypeId) -> (found: bool)
    requires
        ty < graph.size(),
    ensures
        found == primitive_literal_type(graph, ty),
{
    match graph.data(ty) {
        TypeData::Literal(literal) => {
            !matches!(literal, Literal::Object(_) | Literal::RegExp { .. })
        },
        _ => false,
    }
}

/// Whether the type is a literal of a primitive type. A literal in a mutable
/// binding may come as a union of one variant, which counts too.
pub fn is_literal_of_primitive(graph: &TypeGraph, ty: TypeId) -> (found: bool)
    requires
        graph.well_formed(),
        ty < graph.size(),
    ensures
        found == literal_of_primitive(graph, ty),
{
    if is_primitive_literal_type(graph, ty) {
        return true;
    }
    let variants = graph.flattened_union_variants(ty);
    variants.len() == 1 && is_primitive_literal_type(graph, variants[0])
}

/// Just one type is returned, and it is a literal of a primitive type.
pub open spec fn single_literal_return(graph: &TypeGraph, returned: Seq<TypeId>) -> bool {
    returned.len() == 1 && literal_of_primitive(graph, returned[0])
}

/// Whether just one type is returned, and it is a literal of a primitive type.
pub fn is_single_literal_primitive_return(graph: &TypeGraph, returned: &Vec<TypeId>) -> (found:
    bool)
    requires
        graph.well_formed(),
        ids_in_range(returned@, graph.size()),
    ensures
        found == single_literal_return(graph, returned@),
{
    returned.len() == 1 && is_literal_of_primitive(graph, returned[0])
}

/// The type is this boolean literal.
pub open spec fn boolean_literal(graph: &TypeGraph, ty: TypeId, value: bool) -> bool {
    match graph.data_of(ty) {
        TypeData::Literal(Literal::Boolean(found)) => found == value,
        _ => false,
    }
}

/// Some returned type is this boolean literal.
pub open spec fn boolean_returned(graph: &TypeGraph, returned: Seq<TypeId>, value: bool) -> bool {
    exists|i: int|
        0 <= i < returned.len() && boolean_literal(graph, #[trigger] returned[i], value)
}

/// Whether some returned type is this boolean literal.
pub fn returns_boolean(graph: &TypeGraph, returned: &Vec<TypeId>, value: bool) -> (found: bool)
    requires
        ids_in_range(returned@, graph.size()),
    ensures
        found == boolean_returned(graph, returned@, value),
{
    let mut i: usize = 0;
    while i < returned.len()
        invariant
            ids_in_range(returned@, graph.size()),
            i <= returned@.len(),
            forall|j: int|
                0 <= j < i ==> !boolean_literal(graph, #[trigger] returned@[j], value),
        decreases returned@.len() - i,
    {
        if let TypeData::Literal(Literal::Boolean(found)) = graph.data(returned[i]) {
            if *found == value {
                assert(boolean_literal(graph, returned@[i as int], value));
                return true;
            }
        }
        i = i + 1;
    }
    false
}

} // verus!

//! When an annotation, be it a union or not, is wider than what is returned.
use crate::matching::{
    base_of_literal, constraint_of, generic_constraint, generic_resolved, is_base_type_of_literal,
    resolve_generic_chain, same_type, types_match,
};
use crate::types::{ids_in_range, TypeData, TypeGraph, TypeId};
use crate::widening::{is_nonunion_wider, nonunion_wider};
use vstd::prelude::*;

verus! {

/// A type that is no union admits another: it is the same type, or wider.
pub open spec fn covers(graph: &TypeGraph, annotated: TypeId, inferred: TypeId) -> bool {
    same_type(graph, annotated, inferred) || nonunion_wider(graph, annotated, inferred)
}

/// Some variant covers the type.
pub open spec fn covered_by_some(
    graph: &TypeGraph,
    variants: Seq<TypeId>,
    inferred: TypeId,
) -> bool {
    exists|i: int| 0 <= i < variants.len() && covers(graph, #[trigger] variants[i], inferred)
}

/// The variant covers some of the types.
pub open spec fn covers_some(graph: &TypeGraph, variant: TypeId, inferred: Seq<TypeId>) -> bool {
    exists|i: int| 0 <= i < inferred.len() && covers(graph, variant, #[trigger] inferred[i])
}

/// Some variant is the same type.
pub open spec fn matched_by_some(
    graph: &TypeGraph,
    variants: Seq<TypeId>,
    inferred: TypeId,
) -> bool {
    exists|i: int| 0 <= i < variants.len() && same_type(graph, #[trigger] variants[i], inferred)
}

/// Some variant is wider than the type.
pub open spec fn widened_by_some(
    graph: &TypeGraph,
    variants: Seq<TypeId>,
    inferred: TypeId,
) -> bool {
    exists|i: int|
        0 <= i < variants.len() && nonunion_wider(graph, #[trigger] variants[i], inferred)
}

/// The variant is wider than some of the types.
pub open spec fn widens_some(graph: &TypeGraph, variant: TypeId, inferred: Seq<TypeId>) -> bool {
    exists|i: int|
        0 <= i < inferred.len() && nonunion_wider(graph, variant, #[trigger] inferred[i])
}

/// Every type is covered by some variant.
pub open spec fn all_covered(
    graph: &TypeGraph,
    variants: Seq<TypeId>,
    inferred: Seq<TypeId>,
) -> bool {
    forall|i: int|
        0 <= i < inferred.len() ==> #[trigger] covered_by_some(graph, variants, inferred[i])
}

/// The type is covered only by wider variants: none is the same type.
pub open spec fn only_widened(
    graph: &TypeGraph,
    variants: Seq<TypeId>,
    inferred: TypeId,
) -> bool {
    !matched_by_some(graph, variants, inferred) && widened_by_some(graph, variants, inferred)
}

/// Some variant covers none of the types.
pub open spec fn some_unreached(
    graph: &TypeGraph,
    variants: Seq<TypeId>,
    returned: Seq<TypeId>,
) -> bool {
    exists|i: int| 0 <= i < variants.len() && !covers_some(graph, #[trigger] variants[i], returned)
}

/// Some type is covered only by wider variants.
pub open spec fn some_only_widened(
    graph: &TypeGraph,
    variants: Seq<TypeId>,
    returned: Seq<TypeId>,
) -> bool {
    exists|i: int| 0 <= i < returned.len() && only_widened(graph, variants, #[trigger] returned[i])
}

/// An annotated union is wider than what is returned: it covers every return,
/// and either some variant covers none of them, or some return is only covered
/// by a wider variant.
pub open spec fn union_wider_than_returned(
    graph: &TypeGraph,
    variants: Seq<TypeId>,
    returned: Seq<TypeId>,
) -> bool {
    &&& all_covered(graph, variants, returned)
    &&& some_unreached(graph, variants, returned) || some_only_widened(graph, variants, returned)
}

/// Whether a type that is no union is the same as another type, or wider.
pub fn is_covered_by(graph: &TypeGraph, annotated: TypeId, inferred: TypeId) -> (covered: bool)
    requires
        graph.well_formed(),
        annotated < graph.size(),
        inferred < graph.size(),
    ensures
        covered == covers(graph, annotated, inferred),
{
    types_match(graph, annotated, inferred) || is_nonunion_wider(graph, annotated, inferred)
}

fn is_covered_by_some(graph: &TypeGraph, variants: &Vec<TypeId>, inferred: TypeId) -> (covered:
    bool)
    requires
        graph.well_formed(),
        ids_in_range(variants@, graph.size()),
        inferred < graph.size(),
    ensures
        covered == covered_by_some(graph, variants@, inferred),
{
    let mut i: usize = 0;
    while i < variants.len()
        invariant
            graph.well_formed(),
            ids_in_range(variants@, graph.size()),
            inferred < graph.size(),
            i <= variants@.len(),
            forall|j: int| 0 <= j < i ==> !covers(graph, #[trigger] variants@[j], inferred),
        decreases variants@.len() - i,
    {
        if is_covered_by(graph, variants[i], inferred) {
            assert(covers(graph, variants@[i as int], inferred));
            return true;
        }
        i = i + 1;
    }
    false
}

/// Whether the variant covers some of the types.
pub fn covers_any(graph: &TypeGraph, variant: TypeId, inferred: &Vec<TypeId>) -> (covered: bool)
    requires
        graph.well_formed(),
        variant < graph.size(),
        ids_in_range(inferred@, graph.size()),
    ensures
        covered == covers_some(graph, variant, inferred@),
{
    let mut i: usize = 0;
    while i < inferred.len()
        invariant
            graph.well_formed(),
            variant < graph.size(),
            ids_in_range(inferred@, graph.size()),
            i <= inferred@.len(),
            forall|j: int| 0 <= j < i ==> !covers(graph, variant, #[trigger] inferred@[j]),
        decreases inferred@.len() - i,
    {
        if is_covered_by(graph, variant, inferred[i]) {
            assert(covers(graph, variant, inferred@[i as int]));
            return true;
        }
        i = i + 1;
    }
    false
}

fn are_all_covered(graph: &TypeGraph, variants: &Vec<TypeId>, inferred: &Vec<TypeId>) -> (covered:
    bool)
    requires
        graph.well_formed(),
        ids_in_range(variants@, graph.size()),
        ids_in_range(inferred@, graph.size()),
    ensures
        covered == all_covered(graph, variants@, inferred@),
{
    let mut i: usize = 0;
    while i < inferred.len()
        invariant
            graph.well_formed(),
            ids_in_range(variants@, graph.size()),
            ids_in_range(inferred@, graph.size()),
            i <= inferred@.len(),
            forall|j: int|
                0 <= j < i ==> covered_by_some(graph, variants@, #[trigger] inferred@[j]),
        decreases inferred@.len() - i,
    {
        if !is_covered_by_some(graph, variants, inferred[i]) {
            assert(!covered_by_some(graph, variants@, inferred@[i as int]));
            return false;
        }
        i = i + 1;
    }
    true
}

fn is_matched_by_some(graph: &TypeGraph, variants: &Vec<TypeId>, inferred: TypeId) -> (matched:
    bool)
    requires
        graph.well_formed(),
        ids_in_range(variants@, graph.size()),
        inferred < graph.size(),
    ensures
        matched == matched_by_some(graph, variants@, inferred),
{
    let mut i: usize = 0;
    while i < variants.len()
        invariant
            graph.well_formed(),
            ids_in_range(variants@, graph.size()),
            inferred < graph.size(),
            i <= variants@.len(),
            forall|j: int| 0 <= j < i ==> !same_type(graph, #[trigger] variants@[j], inferred),
        decreases variants@.len() - i,
    {
        if types_match(graph, variants[i], inferred) {
            assert(same_type(graph, variants@[i as int], inferred));
            return true;
        }
        i = i + 1;
    }
    false
}

fn is_widened_by_some(graph: &TypeGraph, variants: &Vec<TypeId>, inferred: TypeId) -> (widened:
    bool)
    requires
        graph.well_formed(),
        ids_in_range(variants@, graph.size()),
        inferred < graph.size(),
    ensures
        widened == widened_by_some(graph, variants@, inferred),
{
    let mut i: usize = 0;
    while i < variants.len()
        invariant
            graph.well_formed(),
            ids_in_range(variants@, graph.size()),
            inferred < graph.size(),
            i <= variants@.len(),
            forall|j: int| 0 <= j < i ==> !nonunion_wider(graph, #[trigger] variants@[j], inferred),
        decreases variants@.len() - i,
    {
        if is_nonunion_wider(graph, variants[i], inferred) {
            assert(nonunion_wider(graph, variants@[i as int], inferred));
            return true;
        }
        i = i + 1;
    }
    false
}

fn is_some_only_widened(
    graph: &TypeGraph,
    variants: &Vec<TypeId>,
    returned: &Vec<TypeId>,
) -> (found: bool)
    requires
        graph.well_formed(),
        ids_in_range(variants@, graph.size()),
        ids_in_range(returned@, graph.size()),
    ensures
        found == some_only_widened(graph, variants@, returned@),
{
    let mut i: usize = 0;
    while i < returned.len()
        invariant
            graph.well_formed(),
            ids_in_range(variants@, graph.size()),
            ids_in_range(returned@, graph.size()),
            i <= returned@.len(),
            forall|j: int|
                0 <= j < i ==> !only_widened(graph, variants@, #[trigger] returned@[j]),
        decreases returned@.len() - i,
    {
        let found = !is_matched_by_some(graph, variants, returned[i]) && is_widened_by_some(
            graph,
            variants,
            returned[i],
        );
        assert(found == only_widened(graph, variants@, returned@[i as int]));
        if found {
            return true;
        }
        i = i + 1;
    }
    false
}

/// Flags when the annotation has an unreached variant or a variant strictly
/// wider than a return that no other variant matches directly.
pub fn is_union_wider_than_returns(
    graph: &TypeGraph,
    annotated: TypeId,
    returned: &Vec<TypeId>,
) -> (wider: bool)
    requires
        graph.well_formed(),
        annotated < graph.size(),
        ids_in_range(returned@, graph.size()),
    ensures
        wider == union_wider_than_returned(graph, graph.variants_of(annotated), returned@),
{
    let variants = graph.flattened_union_variants(annotated);
    if !are_all_covered(graph, &variants, returned) {
        return false;
    }
    let mut i: usize = 0;
    while i < variants.len()
        invariant
            graph.well_formed(),
            variants@ == graph.variants_of(annotated),
            ids_in_range(variants@, graph.size()),
            ids_in_range(returned@, graph.size()),
            all_covered(graph, variants@, returned@),
            i <= variants@.len(),
            forall|j: int| 0 <= j < i ==> covers_some(graph, #[trigger] variants@[j], returned@),
        decreases variants@.len() - i,
    {
        if !covers_any(graph, variants[i], returned) {
            assert(!covers_some(graph, variants@[i as int], returned@));
            return true;
        }
        i = i + 1;
    }
    is_some_only_widened(graph, &variants, returned)
}

/// The variants of a union, or the one type that is no union.
pub open spec fn alternatives(graph: &TypeGraph, ty: TypeId) -> Seq<TypeId> {
    if graph.union_type(ty) {
        graph.variants_of(ty)
    } else {
        seq![ty]
    }
}

/// A type parameter among the variants whose constraint another variant covers.
pub open spec fn subsumed(graph: &TypeGraph, variants: Seq<TypeId>, index: int) -> bool {
    match constraint_of(graph, variants[index]) {
        Some(constraint) => exists|other: int|
            0 <= other < variants.len() && other != index && covers(
                graph,
                #[trigger] variants[other],
                constraint,
            ),
        None => false,
    }
}

/// Some variant, not counting type parameters that other variants make
/// redundant, covers none of the types.
pub open spec fn some_needless(
    graph: &TypeGraph,
    variants: Seq<TypeId>,
    inferred: Seq<TypeId>,
) -> bool {
    exists|i: int|
        0 <= i < variants.len() && !subsumed(graph, variants, i) && !covers_some(
            graph,
            #[trigger] variants[i],
            inferred,
        )
}

/// An annotated union is wider than an inferred type: it covers all its
/// alternatives, and either some variant, not counting type parameters that
/// other variants make redundant, covers none of them, or some alternative is
/// only covered by a wider variant.
pub open spec fn union_wider(graph: &TypeGraph, annotated: TypeId, inferred: TypeId) -> bool {
    let variants = graph.variants_of(annotated);
    let others = alternatives(graph, inferred);
    &&& all_covered(graph, variants, others)
    &&& some_needless(graph, variants, others) || some_only_widened(graph, variants, others)
}

fn is_subsumed(graph: &TypeGraph, variants: &Vec<TypeId>, index: usize) -> (found: bool)
    requires
        graph.well_formed(),
        ids_in_range(variants@, graph.size()),
        index < variants@.len(),
    ensures
        found == subsumed(graph, variants@, index as int),
{
    let constraint = match generic_constraint(graph, variants[index]) {
        Some(constraint) => constraint,
        None => {
            return false;
        },
    };
    let mut other: usize = 0;
    while other < variants.len()
        invariant
            graph.well_formed(),
            ids_in_range(variants@, graph.size()),
            index < variants@.len(),
            constraint < graph.size(),
            constraint_of(graph, variants@[index as int]) == Some(constraint),
            other <= variants@.len(),
            forall|j: int|
                0 <= j < other && j != index ==> !covers(
                    graph,
                    #[trigger] variants@[j],
                    constraint,
                ),
        decreases variants@.len() - other,
    {
        if other != index && is_covered_by(graph, variants[other], constraint) {
            assert(covers(graph, variants@[other as int], constraint));
            return true;
        }
        other = other + 1;
    }
    false
}

/// Like [`is_union_wider_than_returns`] but for a single inferred type (used
/// inside [`is_wider_than`]). Also filters out generic variants whose
/// constraints are subsumed by other variants in the annotation union.
pub fn is_union_wider(graph: &TypeGraph, annotated: TypeId, inferred: TypeId) -> (wider: bool)
    requires
        graph.well_formed(),
        annotated < graph.size(),
        inferred < graph.size(),
    ensures
        wider == union_wider(graph, annotated, inferred),
{
    let variants = graph.flattened_union_variants(annotated);
    let others = if graph.is_union(inferred) {
        graph.flattened_union_variants(inferred)
    } else {
        let mut single: Vec<TypeId> = Vec::new();
        single.push(inferred);
        assert(single@ =~= seq![inferred]);
        single
    };
    if !are_all_covered(graph, &variants, &others) {
        return false;
    }
    let mut i: usize = 0;
    while i < variants.len()
        invariant
            graph.well_formed(),
            variants@ == graph.variants_of(annotated),
            others@ == alternatives(graph, inferred),
            ids_in_range(variants@, graph.size()),
            ids_in_range(others@, graph.size()),
            all_covered(graph, variants@, others@),
            i <= variants@.len(),
            forall|j: int|
                0 <= j < i ==> subsumed(graph, variants@, j) || covers_some(
                    graph,
                    #[trigger] variants@[j],
                    others@,
                ),
        decreases variants@.len() - i,
    {
        if !is_subsumed(graph, &variants, i) && !covers_any(graph, variants[i], &others) {
            assert(!covers_some(graph, variants@[i as int], others@));
            return true;
        }
        i = i + 1;
    }
    is_some_only_widened(graph, &variants, &others)
}

/// `string`, `number`, `boolean` or `bigint`.
pub open spec fn primitive_type(graph: &TypeGraph, ty: TypeId) -> bool {
    match graph.data_of(ty) {
        TypeData::String => true,
        TypeData::Number => true,
        TypeData::Boolean => true,
        TypeData::BigInt => true,
        _ => false,
    }
}

/// An annotation that is no union is wider than an inferred union: it covers
/// all variants, widens one of them, and the union does not just spell out the
/// annotated type together with literals of it, as in `0 | number`.
pub open spec fn wider_than_union(
    graph: &TypeGraph,
    annotated: TypeId,
    variants: Seq<TypeId>,
) -> bool {
    let spelled_out = {
        &&& exists|i: int|
            0 <= i < variants.len() && same_type(graph, annotated, #[trigger] variants[i])
        &&& forall|i: int|
            0 <= i < variants.len() ==> same_type(graph, annotated, #[trigger] variants[i])
                || base_of_literal(graph, annotated, variants[i])
    };
    &&& !spelled_out
    &&& forall|i: int| 0 <= i < variants.len() ==> covers(graph, annotated, #[trigger] variants[i])
    &&& widens_some(graph, annotated, variants)
}

/// An annotation is strictly wider than an inferred type.
pub open spec fn wider_than(graph: &TypeGraph, annotated: TypeId, inferred: TypeId) -> bool {
    let current = generic_resolved(graph, inferred);
    if graph.union_type(annotated) {
        union_wider(graph, annotated, current)
    } else if graph.union_type(current) {
        wider_than_union(graph, annotated, graph.variants_of(current))
    } else {
        nonunion_wider(graph, annotated, current)
    }
}

fn is_wider_than_union(graph: &TypeGraph, annotated: TypeId, variants: &Vec<TypeId>) -> (wider:
    bool)
    requires
        graph.well_formed(),
        annotated < graph.size(),
        ids_in_range(variants@, graph.size()),
    ensures
        wider == wider_than_union(graph, annotated, variants@),
{
    let mut has_base_variant = false;
    let mut all_subsumed = true;
    let mut all_covered = true;
    let mut any_wider = false;
    let mut i: usize = 0;
    while i < variants.len()
        invariant
            graph.well_formed(),
            annotated < graph.size(),
            ids_in_range(variants@, graph.size()),
            i <= variants@.len(),
            has_base_variant <==> exists|j: int|
                0 <= j < i && same_type(graph, annotated, #[trigger] variants@[j]),
            all_subsumed <==> forall|j: int|
                0 <= j < i ==> same_type(graph, annotated, #[trigger] variants@[j])
                    || base_of_literal(graph, annotated, variants@[j]),
            all_covered <==> forall|j: int|
                0 <= j < i ==> covers(graph, annotated, #[trigger] variants@[j]),
            any_wider <==> exists|j: int|
                0 <= j < i && nonunion_wider(graph, annotated, #[trigger] variants@[j]),
        decreases variants@.len() - i,
    {
        let matched = types_match(graph, annotated, variants[i]);
        let wider = is_nonunion_wider(graph, annotated, variants[i]);
        let literal = is_base_type_of_literal(graph, annotated, variants[i]);
        assert(matched == same_type(graph, annotated, variants@[i as int]));
        has_base_variant = has_base_variant || matched;
        all_subsumed = all_subsumed && (matched || literal);
        all_covered = all_covered && (matched || wider);
        any_wider = any_wider || wider;
        i = i + 1;
    }
    if has_base_variant && all_subsumed {
        return false;
    }
    all_covered && any_wider
}

/// Checks whether `annotated` is strictly wider than `inferred`.
pub fn is_wider_than(graph: &TypeGraph, annotated: TypeId, inferred: TypeId) -> (wider: bool)
    requires
        graph.well_formed(),
        annotated < graph.size(),
        inferred < graph.size(),
    ensures
        wider == wider_than(graph, annotated, inferred),
{
    let current = resolve_generic_chain(graph, inferred);
    if graph.is_union(annotated) {
        is_union_wider(graph, annotated, current)
    } else if graph.is_union(current) {
        let variants = graph.flattened_union_variants(current);
        is_wider_than_union(graph, annotated, &variants)
    } else {
        is_nonunion_wider(graph, annotated, current)
    }
}

/// The variant at this position is a primitive type, and the only one.
pub open spec fn sole_primitive(graph: &TypeGraph, variants: Seq<TypeId>, index: int) -> bool {
    &&& 0 <= index < variants.len()
    &&& primitive_type(graph, variants[index])
    &&& forall|i: int|
        0 <= i < variants.len() && i != index ==> !primitive_type(graph, #[trigger] variants[i])
}

/// Every other variant is a literal of the type at this position.
pub open spec fn all_absorbed(graph: &TypeGraph, variants: Seq<TypeId>, index: int) -> bool {
    forall|i: int|
        0 <= i < variants.len() && i != index ==> base_of_literal(
            graph,
            variants[index],
            #[trigger] variants[i],
        )
}

/// The variant at this position is the only primitive type of the union, and
/// absorbs all other variants.
pub open spec fn absorbs_at(graph: &TypeGraph, variants: Seq<TypeId>, index: int) -> bool {
    sole_primitive(graph, variants, index) && all_absorbed(graph, variants, index)
}

/// The primitive type that a union collapses to, if it collapses to one.
pub open spec fn absorbing_primitive(graph: &TypeGraph, ty: TypeId) -> Option<TypeId> {
    let variants = graph.variants_of(ty);
    if exists|i: int| absorbs_at(graph, variants, i) {
        Some(variants[choose|i: int| absorbs_at(graph, variants, i)])
    } else {
        None
    }
}

fn is_primitive_type(graph: &TypeGraph, ty: TypeId) -> (found: bool)
    requires
        ty < graph.size(),
    ensures
        found == primitive_type(graph, ty),
{
    matches!(
        graph.data(ty),
        TypeData::String | TypeData::Number | TypeData::Boolean | TypeData::BigInt
    )
}

/// Returns the primitive a union collapses to, when exactly one variant is a
/// primitive and every other variant is a literal of it.
pub fn collapse_union_absorbed_by_primitive(graph: &TypeGraph, ty: TypeId) -> (collapsed: Option<
    TypeId,
>)
    requires
        graph.well_formed(),
        ty < graph.size(),
    ensures
        collapsed == absorbing_primitive(graph, ty),
        collapsed matches Some(primitive) ==> primitive < graph.size(),
{
    let variants = graph.flattened_union_variants(ty);
    let mut primitive: Option<usize> = None;
    let mut i: usize = 0;
    while i < variants.len()
        invariant
            variants@ == graph.variants_of(ty),
            ids_in_range(variants@, graph.size()),
            i <= variants@.len(),
            primitive matches Some(p) ==> p < i && primitive_type(graph, variants@[p as int]),
            forall|j: int|
                0 <= j < i && primitive != Some(j as usize) ==> !primitive_type(
                    graph,
                    #[trigger] variants@[j],
                ),
        decreases variants@.len() - i,
    {
        if is_primitive_type(graph, variants[i]) {
            if let Some(p) = primitive {
                assert(primitive_type(graph, variants@[p as int]));
                assert(primitive_type(graph, variants@[i as int]));
                assert(forall|k: int| !absorbs_at(graph, variants@, k));
                return None;
            }
            primitive = Some(i);
        }
        i = i + 1;
    }
    let index = match primitive {
        Some(index) => index,
        None => {
            assert(forall|k: int| !absorbs_at(graph, variants@, k));
            return None;
        },
    };
    assert(sole_primitive(graph, variants@, index as int));
    assert(forall|k: int| sole_primitive(graph, variants@, k) ==> k == index);
    let found = variants[index];
    let mut k: usize = 0;
    while k < variants.len()
        invariant
            graph.well_formed(),
            variants@ == graph.variants_of(ty),
            ids_in_range(variants@, graph.size()),
            index < variants@.len(),
            found == variants@[index as int],
            forall|j: int| sole_primitive(graph, variants@, j) ==> j == index,
            k <= variants@.len(),
            forall|j: int|
                0 <= j < k && j != index ==> base_of_literal(graph, found, #[trigger] variants@[j]),
        decreases variants@.len() - k,
    {
        if k != index && !is_base_type_of_literal(graph, found, variants[k]) {
            assert(!base_of_literal(graph, found, variants@[k as int]));
            assert(!all_absorbed(graph, variants@, index as int));
            assert(forall|j: int| !absorbs_at(graph, variants@, j));
            return None;
        }
        k = k + 1;
    }
    assert(absorbs_at(graph, variants@, index as int));
    Some(found)
}

} // verus!

//! What holds of comparisons of types, in terms of what the types are.
use crate::laws::{lemma_agrees, lemma_finds_wider, lemma_tally_of_member, lemma_tally_widened};
use crate::matching::{
    base_of_literal, constraint_of, generic_resolved, matching, matching_step, same_type,
};
use crate::property::{only_property_widening, property_step, property_widening};
use crate::traversal::{
    agrees, finds_wider, lemma_tally_all_concat, lemma_tally_deeper, tally, tally_all,
    Comparison, Pair, Step, Tally, MAX_TYPE_TRAVERSAL_ITERATIONS,
};
use crate::types::{Literal, TypeData, TypeGraph, TypeId, TypeRef};
use crate::union::{
    absorbing_primitive, covers_some, only_widened, primitive_type, union_wider,
    union_wider_than_returned, wider_than,
};
use crate::widening::{nonunion_wider, widening, widening_step};
use vstd::prelude::*;

verus! {

/// A reference is looked up in the scope of the type that is read. One that the
/// scope does not hold, or holds without a target, stands for nothing.
pub proof fn law_references_are_looked_up(graph: &TypeGraph, ty: TypeId, reference: TypeRef)
    requires
        ty < graph.size(),
    ensures
        forall|target: TypeId| #[trigger]
            graph.resolved(ty, reference) == Some(target) <==> {
                let scope = graph.scopes@[graph.types@[ty as int].scope as int]@;
                reference < scope.len() && scope[reference as int] == Some(target)
            },
        graph.data_of(ty) == graph.types@[ty as int].data,
        match graph.types@[ty as int].data {
            TypeData::Union { variants } => graph.union_type(ty) && graph.variants_of(ty)
                == variants@,
            _ => !graph.union_type(ty) && graph.variants_of(ty).len() == 0,
        },
{
}

/// A graph is valid exactly when scopes and variants are there, references with a
/// target have one that is there, no variant of a union is a union, and the texts
/// of strings and numbers fit in memory.
pub proof fn law_valid_graphs(graph: &TypeGraph)
    ensures
        graph.well_formed() <==> {
            &&& forall|t: int|
                0 <= t < graph.types@.len() ==> (#[trigger] graph.types@[t]).scope
                    < graph.scopes@.len()
            &&& forall|t: TypeId, i: int|
                t < graph.types@.len() && 0 <= i < graph.variants_of(t).len() ==> #[trigger]
                graph.variants_of(t)[i] < graph.types@.len() && !(graph.data_of(
                    graph.variants_of(t)[i],
                ) is Union)
            &&& forall|s: int, r: int|
                0 <= s < graph.scopes@.len() && 0 <= r < graph.scopes@[s]@.len()
                    && #[trigger] graph.scopes@[s]@[r] is Some ==> graph.scopes@[s]@[r]->0
                    < graph.types@.len()
            &&& forall|t: int|
                0 <= t < graph.types@.len() ==> match (#[trigger] graph.types@[t]).data {
                    TypeData::Literal(Literal::String(text)) => vstd::utf8::encode_utf8(
                        text@,
                    ).len() <= isize::MAX,
                    TypeData::Literal(Literal::Number(text)) => vstd::utf8::encode_utf8(
                        text@,
                    ).len() <= isize::MAX,
                    _ => true,
                }
        },
{
    if graph.well_formed() {
        assert forall|t: int| 0 <= t < graph.types@.len() implies (#[trigger] graph.types@[t]).scope
            < graph.scopes@.len() by {
            assert(graph.types@[t].well_formed(graph.size(), graph.scopes@.len()));
        }
        assert forall|t: TypeId, i: int|
            t < graph.types@.len() && 0 <= i < graph.variants_of(t).len() implies #[trigger]
        graph.variants_of(t)[i] < graph.types@.len() && !(graph.data_of(graph.variants_of(t)[i])
            is Union) by {
            assert(graph.types@[t as int].well_formed(graph.size(), graph.scopes@.len()));
            assert(graph.flat(t));
        }
        assert forall|s: int, r: int|
            0 <= s < graph.scopes@.len() && 0 <= r < graph.scopes@[s]@.len()
                && #[trigger] graph.scopes@[s]@[r] is Some implies graph.scopes@[s]@[r]->0
            < graph.types@.len() by {
            assert(crate::types::scope_well_formed(graph.scopes@[s]@, graph.size()));
        }
        assert forall|t: int| 0 <= t < graph.types@.len() implies match (
        #[trigger] graph.types@[t]).data {
            TypeData::Literal(Literal::String(text)) => vstd::utf8::encode_utf8(text@).len()
                <= isize::MAX,
            TypeData::Literal(Literal::Number(text)) => vstd::utf8::encode_utf8(text@).len()
                <= isize::MAX,
            _ => true,
        } by {
            assert(graph.types@[t].well_formed(graph.size(), graph.scopes@.len()));
        }
    } else {
        assert(graph.types.len() == graph.types@.len());
        if forall|t: TypeId, i: int|
            t < graph.types@.len() && 0 <= i < graph.variants_of(t).len() ==> #[trigger]
            graph.variants_of(t)[i] < graph.types@.len() && !(graph.data_of(
                graph.variants_of(t)[i],
            ) is Union) {
            assert forall|ty: TypeId| ty < graph.size() implies #[trigger] graph.flat(ty) by {
                assert forall|i: int| 0 <= i < graph.variants_of(ty).len() implies !graph.union_type(
                    #[trigger] graph.variants_of(ty)[i],
                ) by {}
            }
            if forall|t: int|
                0 <= t < graph.types@.len() ==> (#[trigger] graph.types@[t]).scope
                    < graph.scopes@.len() {
                if exists|t: int|
                    0 <= t < graph.types@.len() && !(#[trigger] graph.types@[t]).well_formed(
                        graph.size(),
                        graph.scopes@.len(),
                    ) {
                    let t = choose|t: int|
                        0 <= t < graph.types@.len() && !(#[trigger] graph.types@[t]).well_formed(
                            graph.size(),
                            graph.scopes@.len(),
                        );
                    let ty = t as usize;
                    if let TypeData::Union { variants } = graph.types@[t].data {
                        assert(graph.variants_of(ty) == variants@);
                        assert forall|i: int| 0 <= i < variants@.len() implies (
                        #[trigger] variants@[i]) < graph.size() by {
                            assert(graph.variants_of(ty)[i] == variants@[i]);
                        }
                        assert(graph.types@[t].well_formed(graph.size(), graph.scopes@.len()));
                    }
                } else {
                    let s = choose|s: int|
                        0 <= s < graph.scopes@.len() && !crate::types::scope_well_formed(
                            #[trigger] graph.scopes@[s]@,
                            graph.size(),
                        );
                    let r = choose|r: int|
                        0 <= r < graph.scopes@[s]@.len() && !(match #[trigger] graph.scopes@[s]@[r] {
                            Some(target) => target < graph.size(),
                            None => true,
                        });
                    assert(graph.scopes@[s]@[r] is Some);
                }
            }
        }
    }
}

/// A type admits another: it is the same, or wider.
pub open spec fn admits(graph: &TypeGraph, annotated: TypeId, inferred: TypeId) -> bool {
    same_type(graph, annotated, inferred) || nonunion_wider(graph, annotated, inferred)
}

/// Some variant admits the type.
pub open spec fn admitted(graph: &TypeGraph, variants: Seq<TypeId>, ty: TypeId) -> bool {
    exists|i: int| 0 <= i < variants.len() && admits(graph, #[trigger] variants[i], ty)
}

/// All of the types are admitted, each by some variant.
pub open spec fn all_admitted(
    graph: &TypeGraph,
    variants: Seq<TypeId>,
    types: Seq<TypeId>,
) -> bool {
    forall|k: int| 0 <= k < types.len() ==> #[trigger] admitted(graph, variants, types[k])
}

/// The variant admits none of the types.
pub open spec fn admits_none(graph: &TypeGraph, variant: TypeId, types: Seq<TypeId>) -> bool {
    forall|k: int| 0 <= k < types.len() ==> !admits(graph, variant, #[trigger] types[k])
}

/// Some variant admits none of the types.
pub open spec fn some_admits_none(
    graph: &TypeGraph,
    variants: Seq<TypeId>,
    types: Seq<TypeId>,
) -> bool {
    exists|i: int| 0 <= i < variants.len() && admits_none(graph, #[trigger] variants[i], types)
}

/// No variant is the same as the type, but one is wider.
pub open spec fn widened_only(graph: &TypeGraph, variants: Seq<TypeId>, ty: TypeId) -> bool {
    &&& forall|i: int| 0 <= i < variants.len() ==> !same_type(graph, #[trigger] variants[i], ty)
    &&& exists|i: int| 0 <= i < variants.len() && nonunion_wider(graph, #[trigger] variants[i], ty)
}

/// Some type is admitted by wider variants only.
pub open spec fn some_widened_only(
    graph: &TypeGraph,
    variants: Seq<TypeId>,
    types: Seq<TypeId>,
) -> bool {
    exists|k: int| 0 <= k < types.len() && widened_only(graph, variants, #[trigger] types[k])
}

proof fn lemma_admitted(graph: &TypeGraph, variants: Seq<TypeId>, ty: TypeId)
    ensures
        admitted(graph, variants, ty) == crate::union::covered_by_some(graph, variants, ty),
{
    if admitted(graph, variants, ty) {
        let i = choose|i: int|
            0 <= i < variants.len() && admits(graph, #[trigger] variants[i], ty);
        assert(crate::union::covers(graph, variants[i], ty));
    }
    if crate::union::covered_by_some(graph, variants, ty) {
        let i = choose|i: int|
            0 <= i < variants.len() && crate::union::covers(graph, #[trigger] variants[i], ty);
        assert(admits(graph, variants[i], ty));
    }
}

proof fn lemma_all_admitted(graph: &TypeGraph, variants: Seq<TypeId>, types: Seq<TypeId>)
    ensures
        all_admitted(graph, variants, types) == crate::union::all_covered(graph, variants, types),
{
    assert forall|k: int| 0 <= k < types.len() implies #[trigger] admitted(
        graph,
        variants,
        types[k],
    ) == crate::union::covered_by_some(graph, variants, types[k]) by {
        lemma_admitted(graph, variants, types[k]);
    }
    if all_admitted(graph, variants, types) {
        assert forall|k: int| 0 <= k < types.len() implies #[trigger] crate::union::covered_by_some(
            graph,
            variants,
            types[k],
        ) by {
            assert(admitted(graph, variants, types[k]));
        }
    }
    if crate::union::all_covered(graph, variants, types) {
        assert forall|k: int| 0 <= k < types.len() implies #[trigger] admitted(
            graph,
            variants,
            types[k],
        ) by {
            assert(crate::union::covered_by_some(graph, variants, types[k]));
        }
    }
}

proof fn lemma_admits_none(graph: &TypeGraph, variant: TypeId, types: Seq<TypeId>)
    ensures
        admits_none(graph, variant, types) == !covers_some(graph, variant, types),
{
    if covers_some(graph, variant, types) {
        let k = choose|k: int|
            0 <= k < types.len() && crate::union::covers(graph, variant, #[trigger] types[k]);
        assert(admits(graph, variant, types[k]));
    } else {
        assert forall|k: int| 0 <= k < types.len() implies !admits(
            graph,
            variant,
            #[trigger] types[k],
        ) by {
            assert(!crate::union::covers(graph, variant, types[k]));
        }
    }
}

proof fn lemma_widened_only(graph: &TypeGraph, variants: Seq<TypeId>, ty: TypeId)
    ensures
        widened_only(graph, variants, ty) == only_widened(graph, variants, ty),
{
    if only_widened(graph, variants, ty) {
        assert forall|i: int| 0 <= i < variants.len() implies !same_type(
            graph,
            #[trigger] variants[i],
            ty,
        ) by {
            assert(!crate::union::matched_by_some(graph, variants, ty));
        }
    }
}

proof fn lemma_some_admits_none(graph: &TypeGraph, variants: Seq<TypeId>, types: Seq<TypeId>)
    ensures
        some_admits_none(graph, variants, types) == crate::union::some_unreached(
            graph,
            variants,
            types,
        ),
{
    assert forall|i: int| 0 <= i < variants.len() implies admits_none(
        graph,
        #[trigger] variants[i],
        types,
    ) == !covers_some(graph, variants[i], types) by {
        lemma_admits_none(graph, variants[i], types);
    }
}

proof fn lemma_some_widened_only(graph: &TypeGraph, variants: Seq<TypeId>, types: Seq<TypeId>)
    ensures
        some_widened_only(graph, variants, types) == crate::union::some_only_widened(
            graph,
            variants,
            types,
        ),
{
    assert forall|k: int| 0 <= k < types.len() implies widened_only(
        graph,
        variants,
        #[trigger] types[k],
    ) == only_widened(graph, variants, types[k]) by {
        lemma_widened_only(graph, variants, types[k]);
    }
}

/// An annotated union is wider than all returned types together exactly when it
/// admits every one of them, and either some variant, of whatever kind, admits
/// none of them, or some returned type is admitted by wider variants only.
pub proof fn law_unions_wider_than_what_is_returned(
    graph: &TypeGraph,
    variants: Seq<TypeId>,
    returned: Seq<TypeId>,
)
    ensures
        union_wider_than_returned(graph, variants, returned) == (all_admitted(
            graph,
            variants,
            returned,
        ) && (some_admits_none(graph, variants, returned) || some_widened_only(
            graph,
            variants,
            returned,
        ))),
{
    lemma_all_admitted(graph, variants, returned);
    lemma_some_admits_none(graph, variants, returned);
    lemma_some_widened_only(graph, variants, returned);
}

/// A variant that is a type parameter and adds nothing: another variant admits its
/// constraint.
pub open spec fn adds_nothing(graph: &TypeGraph, variants: Seq<TypeId>, at: int) -> bool {
    exists|constraint: TypeId, other: int|
        constraint_of(graph, variants[at]) == Some(constraint) && 0 <= other < variants.len()
            && other != at && #[trigger] admits(graph, variants[other], constraint)
}

/// The variants of a union, or else the type itself.
pub open spec fn choices(graph: &TypeGraph, ty: TypeId) -> Seq<TypeId> {
    match graph.data_of(ty) {
        TypeData::Union { variants } => variants@,
        _ => seq![ty],
    }
}

/// Some variant that adds something admits none of the types.
pub open spec fn some_adds_in_vain(
    graph: &TypeGraph,
    variants: Seq<TypeId>,
    types: Seq<TypeId>,
) -> bool {
    exists|i: int|
        0 <= i < variants.len() && !adds_nothing(graph, variants, i) && admits_none(
            graph,
            #[trigger] variants[i],
            types,
        )
}

proof fn lemma_some_adds_in_vain(graph: &TypeGraph, variants: Seq<TypeId>, types: Seq<TypeId>)
    ensures
        some_adds_in_vain(graph, variants, types) == crate::union::some_needless(
            graph,
            variants,
            types,
        ),
{
    assert forall|i: int| 0 <= i < variants.len() implies admits_none(
        graph,
        #[trigger] variants[i],
        types,
    ) == !covers_some(graph, variants[i], types) && adds_nothing(graph, variants, i)
        == crate::union::subsumed(graph, variants, i) by {
        lemma_admits_none(graph, variants[i], types);
        lemma_adds_nothing(graph, variants, i);
    }
}

/// A union is wider than an inferred type exactly when it admits all its choices,
/// and either some variant that adds something admits none of them, or some choice
/// is admitted by wider variants only.
pub proof fn law_unions_wider_than_a_type(graph: &TypeGraph, annotated: TypeId, inferred: TypeId)
    ensures
        ({
            let variants = graph.variants_of(annotated);
            let others = choices(graph, inferred);
            union_wider(graph, annotated, inferred) == (all_admitted(graph, variants, others) && (
            some_adds_in_vain(graph, variants, others) || some_widened_only(
                graph,
                variants,
                others,
            )))
        }),
{
    let variants = graph.variants_of(annotated);
    let others = choices(graph, inferred);
    assert(crate::union::alternatives(graph, inferred) =~= others);
    lemma_all_admitted(graph, variants, others);
    lemma_some_adds_in_vain(graph, variants, others);
    lemma_some_widened_only(graph, variants, others);
}

/// An annotated union is compared with what a type parameter stands for.
pub proof fn law_unions_are_compared_with_constraints(
    graph: &TypeGraph,
    annotated: TypeId,
    inferred: TypeId,
)
    requires
        graph.data_of(annotated) is Union,
    ensures
        wider_than(graph, annotated, inferred) == union_wider(
            graph,
            annotated,
            generic_resolved(graph, inferred),
        ),
{
}

proof fn lemma_adds_nothing(graph: &TypeGraph, variants: Seq<TypeId>, at: int)
    ensures
        adds_nothing(graph, variants, at) == crate::union::subsumed(graph, variants, at),
{
    if crate::union::subsumed(graph, variants, at) {
        let constraint = constraint_of(graph, variants[at])->0;
        let other = choose|other: int|
            0 <= other < variants.len() && other != at && crate::union::covers(
                graph,
                #[trigger] variants[other],
                constraint,
            );
        assert(admits(graph, variants[other], constraint));
    }
    if adds_nothing(graph, variants, at) {
        let (constraint, other) = choose|constraint: TypeId, other: int|
            constraint_of(graph, variants[at]) == Some(constraint) && 0 <= other < variants.len()
                && other != at && #[trigger] admits(graph, variants[other], constraint);
        assert(crate::union::covers(graph, variants[other], constraint));
    }
}

/// A type that is no union is wider than an inferred union exactly when it admits
/// all variants and is wider than one of them, unless the union just lists the
/// type itself together with literals of it. With any other type it is compared
/// as it stands.
pub proof fn law_types_wider_than_a_union(graph: &TypeGraph, annotated: TypeId, inferred: TypeId)
    requires
        !(graph.data_of(annotated) is Union),
    ensures
        match graph.data_of(generic_resolved(graph, inferred)) {
            TypeData::Union { variants } => wider_than(graph, annotated, inferred) <==> {
                &&& forall|i: int|
                    0 <= i < variants@.len() ==> admits(graph, annotated, #[trigger] variants@[i])
                &&& exists|i: int|
                    0 <= i < variants@.len() && nonunion_wider(
                        graph,
                        annotated,
                        #[trigger] variants@[i],
                    )
                &&& (forall|i: int|
                    0 <= i < variants@.len() ==> !same_type(
                        graph,
                        annotated,
                        #[trigger] variants@[i],
                    )) || (exists|i: int|
                    0 <= i < variants@.len() && !same_type(
                        graph,
                        annotated,
                        #[trigger] variants@[i],
                    ) && !base_of_literal(graph, annotated, variants@[i]))
            },
            _ => wider_than(graph, annotated, inferred) == nonunion_wider(
                graph,
                annotated,
                generic_resolved(graph, inferred),
            ),
        },
{
    if let TypeData::Union { variants } = graph.data_of(generic_resolved(graph, inferred)) {
        assert(graph.variants_of(generic_resolved(graph, inferred)) == variants@);
        if wider_than(graph, annotated, inferred) {
            assert forall|i: int| 0 <= i < variants@.len() implies admits(
                graph,
                annotated,
                #[trigger] variants@[i],
            ) by {
                assert(crate::union::covers(graph, annotated, variants@[i]));
            }
        }
    }
}

/// A literal belongs to the primitive type of its kind, and to no other: strings
/// and templates to `string`, numbers to `number`, booleans to `boolean`, and big
/// integers to `bigint`.
pub proof fn law_literals_belong_to_primitives(graph: &TypeGraph, base: TypeId, literal: TypeId)
    ensures
        base_of_literal(graph, base, literal) <==> (graph.data_of(
            literal,
        ) matches TypeData::Literal(found) && {
            ||| graph.data_of(base) is String && (found is String || found is Template)
            ||| graph.data_of(base) is Number && found is Number
            ||| graph.data_of(base) is Boolean && found is Boolean
            ||| graph.data_of(base) is BigInt && found is BigInt
        }),
        primitive_type(graph, base) <==> graph.data_of(base) is String || graph.data_of(base)
            is Number || graph.data_of(base) is Boolean || graph.data_of(base) is BigInt,
{
}

/// The constraint of a type parameter is the type that it names, and nothing else
/// has one.
pub proof fn law_constraints(graph: &TypeGraph, ty: TypeId)
    ensures
        match graph.data_of(ty) {
            TypeData::Generic { constraint: Some(reference), .. } => constraint_of(graph, ty)
                == graph.resolved(ty, reference),
            _ => constraint_of(graph, ty) is None && generic_resolved(graph, ty) == ty,
        },
{
}

/// A union that collapses has one variant that is a primitive type, and literals
/// of it otherwise. Only unions collapse.
pub proof fn law_only_unions_collapse(graph: &TypeGraph, ty: TypeId)
    requires
        !(graph.data_of(ty) is Union),
    ensures
        absorbing_primitive(graph, ty) is None,
{
    assert(forall|i: int| !crate::union::absorbs_at(graph, graph.variants_of(ty), i));
}

/// Comparing several pairs of types means comparing each of them, and every pair
/// of types means comparing what it leads to, one level deeper.
pub proof fn law_comparisons_add_up(
    compare: Comparison,
    pair: Pair,
    first: Seq<Pair>,
    second: Seq<Pair>,
    depth: nat,
)
    ensures
        match compare(pair) {
            Step::Mismatch => tally(compare, pair, depth + 1) is None,
            Step::Checked { widened, next } => match tally_all(compare, next, depth) {
                Some(found) => tally(compare, pair, depth + 1) == Some(
                    Tally { pairs: found.pairs + 1, widened: found.widened || widened },
                ),
                None => tally(compare, pair, depth + 1) is None,
            },
        },
        tally(compare, pair, 0) is None,
        tally_all(compare, seq![pair], depth) == tally(compare, pair, depth),
        tally_all(compare, Seq::empty(), depth) == Some(Tally { pairs: 0, widened: false }),
        match (tally_all(compare, first, depth), tally_all(compare, second, depth)) {
            (Some(a), Some(b)) => tally_all(compare, first + second, depth) == Some(
                Tally { pairs: a.pairs + b.pairs, widened: a.widened || b.widened },
            ),
            _ => tally_all(compare, first + second, depth) is None,
        },
{
    lemma_tally_all_concat(compare, first, second, depth);
    assert((depth + 1 - 1) as nat == depth);
    assert(seq![pair].drop_last() =~= Seq::<Pair>::empty());
    assert(seq![pair].last() == pair);
    assert(tally_all(compare, Seq::<Pair>::empty(), depth) == Some(
        Tally { pairs: 0, widened: false },
    ));
}

/// A comparison succeeds exactly when all pairs compare, fifty of them at most,
/// and finds the annotation wider exactly when one of them is.
pub proof fn law_comparisons_are_bounded(compare: Comparison, pair: Pair)
    ensures
        agrees(compare, pair) <==> (tally(compare, pair, 50) matches Some(found) && found.pairs
            <= 50),
        finds_wider(compare, pair) <==> (tally(compare, pair, 50) matches Some(found)
            && found.pairs <= 50 && found.widened),
        compare(pair) is Mismatch ==> !agrees(compare, pair) && !finds_wider(compare, pair),
{
    lemma_agrees(compare, pair);
    lemma_finds_wider(compare, pair);
}

/// Types that compare have parts that compare, and the annotation is wider only
/// if it is so itself or in a part.
pub proof fn law_wider_types_have_wider_parts(
    compare: Comparison,
    pair: Pair,
    widened: bool,
    next: Seq<Pair>,
)
    requires
        compare(pair) == (Step::Checked { widened, next }),
        agrees(compare, pair),
    ensures
        forall|i: int| 0 <= i < next.len() ==> agrees(compare, #[trigger] next[i]),
        finds_wider(compare, pair) ==> widened || exists|i: int|
            0 <= i < next.len() && finds_wider(compare, #[trigger] next[i]),
        widened ==> finds_wider(compare, pair),
        (exists|i: int| 0 <= i < next.len() && finds_wider(compare, #[trigger] next[i]))
            ==> finds_wider(compare, pair),
{
    let budget = MAX_TYPE_TRAVERSAL_ITERATIONS as nat;
    let less = (budget - 1) as nat;
    lemma_agrees(compare, pair);
    lemma_finds_wider(compare, pair);
    assert forall|i: int| 0 <= i < next.len() implies agrees(compare, #[trigger] next[i]) by {
        lemma_tally_of_member(compare, next, less, i);
        lemma_tally_deeper(compare, next[i], less, budget);
        lemma_agrees(compare, next[i]);
    }
    if finds_wider(compare, pair) && !widened {
        let at = lemma_tally_widened(compare, next, less);
        lemma_tally_of_member(compare, next, less, at);
        lemma_tally_deeper(compare, next[at], less, budget);
        lemma_finds_wider(compare, next[at]);
    }
    if exists|i: int| 0 <= i < next.len() && finds_wider(compare, #[trigger] next[i]) {
        let i = choose|i: int| 0 <= i < next.len() && finds_wider(compare, #[trigger] next[i]);
        lemma_tally_of_member(compare, next, less, i);
        lemma_tally_deeper(compare, next[i], less, budget);
        lemma_finds_wider(compare, next[i]);
        lemma_widened_member(compare, next, less, i);
    }
}

proof fn lemma_widened_member(compare: Comparison, pairs: Seq<Pair>, depth: nat, at: int)
    requires
        0 <= at < pairs.len(),
        tally_all(compare, pairs, depth) is Some,
        tally(compare, pairs[at], depth) is Some,
        tally(compare, pairs[at], depth)->0.widened,
    ensures
        tally_all(compare, pairs, depth)->0.widened,
    decreases pairs.len(),
{
    if at < pairs.len() - 1 {
        lemma_widened_member(compare, pairs.drop_last(), depth, at);
    }
}

/// What types are compared by: structural equality, widening, and the widening of
/// properties, which has to hold of every returned type.
pub proof fn law_what_comparisons_decide(
    graph: &TypeGraph,
    a: TypeId,
    b: TypeId,
    returned: Seq<TypeId>,
)
    ensures
        same_type(graph, a, b) == agrees(matching(graph), (a, b)),
        nonunion_wider(graph, a, b) == finds_wider(
            widening(graph),
            (a, generic_resolved(graph, b)),
        ),
        only_property_widening(graph, a, returned) <==> forall|i: int|
            0 <= i < returned.len() ==> finds_wider(
                property_widening(graph),
                (a, #[trigger] returned[i]),
            ),
        matching(graph)((a, b)) == matching_step(graph, (a, b)),
        widening(graph)((a, b)) == widening_step(graph, (a, b)),
        property_widening(graph)((a, b)) == property_step(graph, (a, b)),
{
}

/// A type covers another exactly when it is the same or wider, and covers some of
/// several types exactly when it covers one of them. Numbers are in range exactly
/// when all of them are.
pub proof fn law_coverage(
    graph: &TypeGraph,
    annotated: TypeId,
    inferred: TypeId,
    types: Seq<TypeId>,
    size: nat,
)
    ensures
        crate::union::covers(graph, annotated, inferred) == admits(graph, annotated, inferred),
        covers_some(graph, annotated, types) == !admits_none(graph, annotated, types),
        crate::types::ids_in_range(types, size) <==> forall|i: int|
            0 <= i < types.len() ==> #[trigger] types[i] < size,
{
    lemma_admits_none(graph, annotated, types);
}

/// Six constraints are followed, and no more.
pub proof fn law_six_constraints_are_followed(graph: &TypeGraph, path: Seq<TypeId>)
    requires
        path.len() == 7,
        forall|i: int|
            0 < i < path.len() ==> constraint_of(graph, path[i - 1]) == Some(#[trigger] path[i]),
    ensures
        generic_resolved(graph, path[0]) == path[6],
{
    reveal_with_fuel(crate::matching::generic_chain, 7);
    assert(constraint_of(graph, path[1 - 1]) == Some(path[1]));
    assert(constraint_of(graph, path[2 - 1]) == Some(path[2]));
    assert(constraint_of(graph, path[3 - 1]) == Some(path[3]));
    assert(constraint_of(graph, path[4 - 1]) == Some(path[4]));
    assert(constraint_of(graph, path[5 - 1]) == Some(path[5]));
    assert(constraint_of(graph, path[6 - 1]) == Some(path[6]));
}

/// A chain of constraints that ends sooner is followed to its end.
pub proof fn law_short_chains_are_followed_to_the_end(graph: &TypeGraph, path: Seq<TypeId>)
    requires
        0 < path.len() <= 7,
        forall|i: int|
            0 < i < path.len() ==> constraint_of(graph, path[i - 1]) == Some(#[trigger] path[i]),
        constraint_of(graph, path.last()) is None,
    ensures
        generic_resolved(graph, path[0]) == path.last(),
{
    assert forall|i: int| 0 <= i < path.len() - 1 implies constraint_of(graph, #[trigger] path[i])
        == Some(path[i + 1]) by {
        assert(constraint_of(graph, path[i + 1 - 1]) == Some(path[i + 1]));
    }
    crate::laws::law_constraints_followed_to_the_end(graph, path);
}

} // verus!

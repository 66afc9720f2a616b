//! When an annotated type that is no union is wider than an inferred one.
use crate::matching::{
    base_of_literal, generic_resolved, is_base_type_of_literal, resolve_generic_chain, same_type,
    types_match,
};
use crate::traversal::{
    finds_wider, lemma_settled_exhausted, lemma_settled_step, pairs_in_range, settled, Comparison,
    Pair, Step, MAX_TYPE_TRAVERSAL_ITERATIONS,
};
use crate::types::{Literal, TypeData, TypeGraph, TypeId, TypeMember, TypeMemberKind, TypeRef};
use vstd::prelude::*;

verus! {

/// A member is found under this name.
pub open spec fn answers_to(kind: TypeMemberKind, name: Seq<char>) -> bool {
    match kind {
        TypeMemberKind::CallSignature => false,
        TypeMemberKind::IndexSignature(_) => false,
        TypeMemberKind::Constructor => name == "constructor"@,
        TypeMemberKind::Getter(own) => own@ == name,
        TypeMemberKind::Named(own) => own@ == name,
        TypeMemberKind::NamedOptional(own) => own@ == name,
        TypeMemberKind::NamedStatic(own) => own@ == name,
    }
}

/// The name of a property of an annotated type, be it optional or not.
pub open spec fn property_name(kind: TypeMemberKind) -> Option<Seq<char>> {
    match kind {
        TypeMemberKind::Named(name) => Some(name@),
        TypeMemberKind::NamedOptional(name) => Some(name@),
        _ => None,
    }
}

/// The first of the first `count` members that is found under this name.
pub open spec fn first_named(members: Seq<TypeMember>, name: Seq<char>, count: nat) -> Option<nat>
    decreases count,
{
    if count == 0 {
        None
    } else {
        match first_named(members, name, (count - 1) as nat) {
            Some(found) => Some(found),
            None => if answers_to(members[count - 1].kind, name) {
                Some((count - 1) as nat)
            } else {
                None
            },
        }
    }
}

/// The member of an object that is found under this name.
pub open spec fn member_named(members: Seq<TypeMember>, name: Seq<char>) -> Option<TypeMember> {
    match first_named(members, name, members.len()) {
        Some(found) => Some(members[found as int]),
        None => None,
    }
}

/// The first index signature among the first `count` members.
pub open spec fn first_index_signature(members: Seq<TypeMember>, count: nat) -> Option<nat>
    decreases count,
{
    if count == 0 {
        None
    } else {
        match first_index_signature(members, (count - 1) as nat) {
            Some(found) => Some(found),
            None => if members[count - 1].kind is IndexSignature {
                Some((count - 1) as nat)
            } else {
                None
            },
        }
    }
}

/// The type of the values that the index signature of an annotated object admits.
pub open spec fn index_value_type(
    graph: &TypeGraph,
    annotated: TypeId,
    members: Seq<TypeMember>,
) -> Option<TypeId> {
    match first_index_signature(members, members.len()) {
        Some(found) => graph.resolved(annotated, members[found as int].ty),
        None => None,
    }
}

/// The pairs of types that the parts of two types give, one part after the
/// other. It is incomplete from the first part on that has no counterpart.
pub struct Pairing {
    pub pairs: Seq<Pair>,
    pub complete: bool,
}

/// No parts yet.
pub open spec fn no_pairs() -> Pairing {
    Pairing { pairs: Seq::empty(), complete: true }
}

/// Types that have no parts in common.
pub open spec fn unpaired() -> Pairing {
    Pairing { pairs: Seq::empty(), complete: false }
}

/// Adds a pair of types, if both are there.
pub open spec fn with_pair(
    graph: &TypeGraph,
    before: Pairing,
    annotated: Option<TypeId>,
    inferred: Option<TypeId>,
) -> Pairing {
    match (annotated, inferred) {
        (Some(a), Some(b)) => Pairing {
            pairs: before.pairs.push((a, generic_resolved(graph, b))),
            complete: before.complete,
        },
        _ => Pairing { pairs: before.pairs, complete: false },
    }
}

/// Pairs each of the first `count` inferred members with the type of an index signature.
pub open spec fn index_pairing(
    graph: &TypeGraph,
    value: TypeId,
    inferred: TypeId,
    members: Seq<TypeMember>,
    count: nat,
) -> Pairing
    decreases count,
{
    if count == 0 {
        no_pairs()
    } else {
        let before = index_pairing(graph, value, inferred, members, (count - 1) as nat);
        if before.complete {
            with_pair(
                graph,
                before,
                Some(value),
                graph.resolved(inferred, members[count - 1].ty),
            )
        } else {
            before
        }
    }
}

/// Pairs each property among the first `count` annotated members with the
/// inferred member of that name, whose type is read from `inferred`.
pub open spec fn named_pairing(
    graph: &TypeGraph,
    annotated: TypeId,
    ann_members: Seq<TypeMember>,
    inferred: TypeId,
    inf_members: Seq<TypeMember>,
    count: nat,
) -> Pairing
    decreases count,
{
    if count == 0 {
        no_pairs()
    } else {
        let before = named_pairing(
            graph,
            annotated,
            ann_members,
            inferred,
            inf_members,
            (count - 1) as nat,
        );
        let member = ann_members[count - 1];
        if before.complete {
            match property_name(member.kind) {
                Some(name) => match member_named(inf_members, name) {
                    Some(counterpart) => with_pair(
                        graph,
                        before,
                        graph.resolved(annotated, member.ty),
                        graph.resolved(inferred, counterpart.ty),
                    ),
                    None => Pairing { pairs: before.pairs, complete: false },
                },
                None => before,
            }
        } else {
            before
        }
    }
}

/// Pairs the first `count` references of two lists, position by position.
pub open spec fn zip_pairing(
    graph: &TypeGraph,
    annotated: TypeId,
    ann_refs: Seq<TypeRef>,
    inferred: TypeId,
    inf_refs: Seq<TypeRef>,
    count: nat,
) -> Pairing
    decreases count,
{
    if count == 0 {
        no_pairs()
    } else {
        let before = zip_pairing(
            graph,
            annotated,
            ann_refs,
            inferred,
            inf_refs,
            (count - 1) as nat,
        );
        if before.complete {
            with_pair(
                graph,
                before,
                graph.resolved(annotated, ann_refs[count - 1]),
                graph.resolved(inferred, inf_refs[count - 1]),
            )
        } else {
            before
        }
    }
}

/// The pairs that two lists of references give: they have to be equally long, and not empty.
pub open spec fn list_pairing(
    graph: &TypeGraph,
    annotated: TypeId,
    ann_refs: Seq<TypeRef>,
    inferred: TypeId,
    inf_refs: Seq<TypeRef>,
) -> Pairing {
    if ann_refs.len() != inf_refs.len() || ann_refs.len() == 0 {
        unpaired()
    } else {
        zip_pairing(graph, annotated, ann_refs, inferred, inf_refs, ann_refs.len())
    }
}

/// The pairs that two object types give. An index signature of the annotated
/// one, as `Record<K, V>` has it, is paired with every inferred member.
pub open spec fn object_pairing(
    graph: &TypeGraph,
    annotated: TypeId,
    ann_members: Seq<TypeMember>,
    inferred: TypeId,
    inf_members: Seq<TypeMember>,
) -> Pairing {
    if ann_members.len() == 0 || inf_members.len() == 0 {
        unpaired()
    } else {
        match index_value_type(graph, annotated, ann_members) {
            Some(value) => index_pairing(graph, value, inferred, inf_members, inf_members.len()),
            None => named_pairing(
                graph,
                annotated,
                ann_members,
                inferred,
                inf_members,
                ann_members.len(),
            ),
        }
    }
}

/// The pairs that an object type and an object literal give. The types of the
/// literal's members are read from the annotated type.
pub open spec fn object_literal_pairing(
    graph: &TypeGraph,
    annotated: TypeId,
    ann_members: Seq<TypeMember>,
    inf_members: Seq<TypeMember>,
) -> Pairing {
    if ann_members.len() == 0 || inf_members.len() == 0 {
        unpaired()
    } else {
        named_pairing(
            graph,
            annotated,
            ann_members,
            annotated,
            inf_members,
            ann_members.len(),
        )
    }
}

/// The pairs that two instances give: they have to be instances of the same
/// type, and their type arguments are paired.
pub open spec fn instance_pairing(
    graph: &TypeGraph,
    annotated: TypeId,
    ann_base: TypeRef,
    ann_params: Seq<TypeRef>,
    inferred: TypeId,
    inf_base: TypeRef,
    inf_params: Seq<TypeRef>,
) -> Pairing {
    match (graph.resolved(annotated, ann_base), graph.resolved(inferred, inf_base)) {
        (Some(a), Some(b)) => if same_type(graph, a, b) {
            list_pairing(graph, annotated, ann_params, inferred, inf_params)
        } else {
            unpaired()
        },
        _ => unpaired(),
    }
}

/// The pairs that the parts of two compound types give.
pub open spec fn compound_pairing(
    graph: &TypeGraph,
    annotated: TypeId,
    inferred: TypeId,
) -> Pairing {
    match (graph.data_of(annotated), graph.data_of(inferred)) {
        (
            TypeData::InstanceOf { ty: ann_base, type_parameters: ann_params },
            TypeData::InstanceOf { ty: inf_base, type_parameters: inf_params },
        ) => instance_pairing(
            graph,
            annotated,
            ann_base,
            ann_params@,
            inferred,
            inf_base,
            inf_params@,
        ),
        (TypeData::Object { members: ann }, TypeData::Object { members: inf }) => object_pairing(
            graph,
            annotated,
            ann@,
            inferred,
            inf@,
        ),
        (TypeData::Object { members: ann }, TypeData::Literal(Literal::Object(inf))) =>
            object_literal_pairing(graph, annotated, ann@, inf@),
        (TypeData::Tuple { elements: ann }, TypeData::Tuple { elements: inf }) => list_pairing(
            graph,
            annotated,
            ann@,
            inferred,
            inf@,
        ),
        _ => unpaired(),
    }
}

/// Compares an annotated type with an inferred one: the base of a literal is
/// wider, the same type is not, and compound types lead to their parts.
pub open spec fn widening_step(graph: &TypeGraph, pair: Pair) -> Step {
    if base_of_literal(graph, pair.0, pair.1) {
        Step::Checked { widened: true, next: Seq::empty() }
    } else if same_type(graph, pair.0, pair.1) {
        Step::Checked { widened: false, next: Seq::empty() }
    } else {
        let parts = compound_pairing(graph, pair.0, pair.1);
        if parts.complete {
            Step::Checked { widened: false, next: parts.pairs }
        } else {
            Step::Mismatch
        }
    }
}

/// The comparison by [`widening_step`].
pub open spec fn widening(graph: &TypeGraph) -> Comparison {
    |pair: Pair| widening_step(graph, pair)
}

/// An annotated type that is no union is wider than an inferred one: all their
/// parts agree but for at least one literal that the annotation widens.
pub open spec fn nonunion_wider(graph: &TypeGraph, annotated: TypeId, inferred: TypeId) -> bool {
    finds_wider(widening(graph), (annotated, generic_resolved(graph, inferred)))
}

/// An incomplete pairing takes up no further members.
proof fn lemma_named_pairing_stops(
    graph: &TypeGraph,
    annotated: TypeId,
    ann_members: Seq<TypeMember>,
    inferred: TypeId,
    inf_members: Seq<TypeMember>,
    count: nat,
    more: nat,
)
    requires
        count <= more,
        !named_pairing(graph, annotated, ann_members, inferred, inf_members, count).complete,
    ensures
        named_pairing(graph, annotated, ann_members, inferred, inf_members, more)
            == named_pairing(graph, annotated, ann_members, inferred, inf_members, count),
    decreases more,
{
    if count < more {
        lemma_named_pairing_stops(
            graph,
            annotated,
            ann_members,
            inferred,
            inf_members,
            count,
            (more - 1) as nat,
        );
    }
}

proof fn lemma_index_pairing_stops(
    graph: &TypeGraph,
    value: TypeId,
    inferred: TypeId,
    members: Seq<TypeMember>,
    count: nat,
    more: nat,
)
    requires
        count <= more,
        !index_pairing(graph, value, inferred, members, count).complete,
    ensures
        index_pairing(graph, value, inferred, members, more) == index_pairing(
            graph,
            value,
            inferred,
            members,
            count,
        ),
    decreases more,
{
    if count < more {
        lemma_index_pairing_stops(graph, value, inferred, members, count, (more - 1) as nat);
    }
}

proof fn lemma_zip_pairing_stops(
    graph: &TypeGraph,
    annotated: TypeId,
    ann_refs: Seq<TypeRef>,
    inferred: TypeId,
    inf_refs: Seq<TypeRef>,
    count: nat,
    more: nat,
)
    requires
        count <= more,
        !zip_pairing(graph, annotated, ann_refs, inferred, inf_refs, count).complete,
    ensures
        zip_pairing(graph, annotated, ann_refs, inferred, inf_refs, more) == zip_pairing(
            graph,
            annotated,
            ann_refs,
            inferred,
            inf_refs,
            count,
        ),
    decreases more,
{
    if count < more {
        lemma_zip_pairing_stops(
            graph,
            annotated,
            ann_refs,
            inferred,
            inf_refs,
            count,
            (more - 1) as nat,
        );
    }
}

/// The first member found stays the first when more members are searched.
proof fn lemma_first_named_stops(
    members: Seq<TypeMember>,
    name: Seq<char>,
    count: nat,
    more: nat,
)
    requires
        count <= more,
        first_named(members, name, count) is Some,
    ensures
        first_named(members, name, more) == first_named(members, name, count),
    decreases more,
{
    if count < more {
        lemma_first_named_stops(members, name, count, (more - 1) as nat);
    }
}

proof fn lemma_first_index_signature_stops(members: Seq<TypeMember>, count: nat, more: nat)
    requires
        count <= more,
        first_index_signature(members, count) is Some,
    ensures
        first_index_signature(members, more) == first_index_signature(members, count),
    decreases more,
{
    if count < more {
        lemma_first_index_signature_stops(members, count, (more - 1) as nat);
    }
}

/// Whether a member is found under this name.
pub fn has_name(kind: &TypeMemberKind, name: &String) -> (found: bool)
    ensures
        found == answers_to(*kind, name@),
{
    match kind {
        TypeMemberKind::CallSignature | TypeMemberKind::IndexSignature(_) => false,
        TypeMemberKind::Constructor => *name == "constructor".to_owned(),
        TypeMemberKind::Getter(own) => *own == *name,
        TypeMemberKind::Named(own) => *own == *name,
        TypeMemberKind::NamedOptional(own) => *own == *name,
        TypeMemberKind::NamedStatic(own) => *own == *name,
    }
}

/// The member of an object that is found under this name.
pub fn find_member<'a>(members: &'a Vec<TypeMember>, name: &String) -> (found: Option<
    &'a TypeMember,
>)
    ensures
        found is Some <==> member_named(members@, name@) is Some,
        found matches Some(member) ==> Some(*member) == member_named(members@, name@),
{
    let mut i: usize = 0;
    while i < members.len()
        invariant
            i <= members@.len(),
            first_named(members@, name@, i as nat) is None,
        decreases members@.len() - i,
    {
        if has_name(&members[i].kind, name) {
            proof {
                lemma_first_named_stops(members@, name@, (i + 1) as nat, members@.len());
            }
            return Some(&members[i]);
        }
        i = i + 1;
    }
    None
}

/// The type of the values that the index signature of an annotated object admits.
pub fn find_index_value_type(
    graph: &TypeGraph,
    annotated: TypeId,
    members: &Vec<TypeMember>,
) -> (value: Option<TypeId>)
    requires
        graph.well_formed(),
        annotated < graph.size(),
    ensures
        value == index_value_type(graph, annotated, members@),
        value matches Some(found) ==> found < graph.size(),
{
    let mut i: usize = 0;
    while i < members.len()
        invariant
            graph.well_formed(),
            annotated < graph.size(),
            i <= members@.len(),
            first_index_signature(members@, i as nat) is None,
        decreases members@.len() - i,
    {
        if matches!(members[i].kind, TypeMemberKind::IndexSignature(_)) {
            proof {
                lemma_first_index_signature_stops(members@, (i + 1) as nat, members@.len());
            }
            return graph.resolve(annotated, members[i].ty);
        }
        i = i + 1;
    }
    None
}

/// The name of a property, be it optional or not.
pub fn property_name_of(kind: &TypeMemberKind) -> (name: Option<&String>)
    ensures
        name is Some <==> property_name(*kind) is Some,
        name matches Some(found) ==> property_name(*kind) == Some(found@),
{
    match kind {
        TypeMemberKind::Named(name) => Some(name),
        TypeMemberKind::NamedOptional(name) => Some(name),
        _ => None,
    }
}

fn push_named_pairs(
    graph: &TypeGraph,
    annotated: TypeId,
    ann_members: &Vec<TypeMember>,
    inferred: TypeId,
    inf_members: &Vec<TypeMember>,
    stack: &mut Vec<Pair>,
) -> (complete: bool)
    requires
        graph.well_formed(),
        annotated < graph.size(),
        inferred < graph.size(),
        pairs_in_range(old(stack)@, graph.size()),
    ensures
        ({
            let parts = named_pairing(
                graph,
                annotated,
                ann_members@,
                inferred,
                inf_members@,
                ann_members@.len(),
            );
            &&& complete == parts.complete
            &&& final(stack)@ == old(stack)@ + parts.pairs
        }),
        pairs_in_range(final(stack)@, graph.size()),
{
    let ghost before = stack@;
    let mut i: usize = 0;
    assert(stack@ =~= before + no_pairs().pairs);
    while i < ann_members.len()
        invariant
            graph.well_formed(),
            annotated < graph.size(),
            inferred < graph.size(),
            before == old(stack)@,
            i <= ann_members@.len(),
            named_pairing(
                graph,
                annotated,
                ann_members@,
                inferred,
                inf_members@,
                i as nat,
            ).complete,
            stack@ == before + named_pairing(
                graph,
                annotated,
                ann_members@,
                inferred,
                inf_members@,
                i as nat,
            ).pairs,
            pairs_in_range(stack@, graph.size()),
        decreases ann_members@.len() - i,
    {
        let member = &ann_members[i];
        let ghost parts = named_pairing(
            graph,
            annotated,
            ann_members@,
            inferred,
            inf_members@,
            (i + 1) as nat,
        );
        if let Some(name) = property_name_of(&member.kind) {
            let found = match find_member(inf_members, name) {
                Some(counterpart) => match (
                    graph.resolve(annotated, member.ty),
                    graph.resolve(inferred, counterpart.ty),
                ) {
                    (Some(a), Some(b)) => Some((a, b)),
                    _ => None,
                },
                None => None,
            };
            match found {
                Some((a, b)) => {
                    stack.push((a, resolve_generic_chain(graph, b)));
                    assert(stack@ =~= before + parts.pairs);
                },
                None => {
                    proof {
                        lemma_named_pairing_stops(
                            graph,
                            annotated,
                            ann_members@,
                            inferred,
                            inf_members@,
                            (i + 1) as nat,
                            ann_members@.len(),
                        );
                    }
                    return false;
                },
            }
        }
        i = i + 1;
    }
    true
}

/// Pushes property type pairs onto the work stack for pairwise comparison.
/// Also handles index signatures, which arise from `Record<K, V>` annotations.
/// Tells whether every part of the annotation has a counterpart.
pub fn push_object_pairs(
    graph: &TypeGraph,
    annotated: TypeId,
    ann_members: &Vec<TypeMember>,
    inferred: TypeId,
    inf_members: &Vec<TypeMember>,
    stack: &mut Vec<Pair>,
) -> (complete: bool)
    requires
        graph.well_formed(),
        annotated < graph.size(),
        inferred < graph.size(),
        pairs_in_range(old(stack)@, graph.size()),
    ensures
        complete == object_pairing(
            graph,
            annotated,
            ann_members@,
            inferred,
            inf_members@,
        ).complete,
        final(stack)@ == old(stack)@ + object_pairing(
            graph,
            annotated,
            ann_members@,
            inferred,
            inf_members@,
        ).pairs,
        pairs_in_range(final(stack)@, graph.size()),
{
    let ghost before = stack@;
    assert(stack@ =~= before + no_pairs().pairs);
    if ann_members.len() == 0 || inf_members.len() == 0 {
        return false;
    }
    if let Some(value) = find_index_value_type(graph, annotated, ann_members) {
        let mut i: usize = 0;
        while i < inf_members.len()
            invariant
                graph.well_formed(),
                inferred < graph.size(),
                value < graph.size(),
                before == old(stack)@,
                i <= inf_members@.len(),
                index_pairing(graph, value, inferred, inf_members@, i as nat).complete,
                stack@ == before + index_pairing(
                    graph,
                    value,
                    inferred,
                    inf_members@,
                    i as nat,
                ).pairs,
                pairs_in_range(stack@, graph.size()),
                object_pairing(graph, annotated, ann_members@, inferred, inf_members@)
                    == index_pairing(graph, value, inferred, inf_members@, inf_members@.len()),
            decreases inf_members@.len() - i,
        {
            let ghost parts = index_pairing(
                graph,
                value,
                inferred,
                inf_members@,
                (i + 1) as nat,
            );
            match graph.resolve(inferred, inf_members[i].ty) {
                Some(found) => {
                    stack.push((value, resolve_generic_chain(graph, found)));
                    assert(stack@ =~= before + parts.pairs);
                },
                None => {
                    proof {
                        lemma_index_pairing_stops(
                            graph,
                            value,
                            inferred,
                            inf_members@,
                            (i + 1) as nat,
                            inf_members@.len(),
                        );
                    }
                    return false;
                },
            }
            i = i + 1;
        }
        return true;
    }
    push_named_pairs(graph, annotated, ann_members, inferred, inf_members, stack)
}

/// Pushes the pairs of an object type and an object literal onto the work
/// stack. Tells whether every property of the annotation has a counterpart.
pub fn push_object_literal_pairs(
    graph: &TypeGraph,
    annotated: TypeId,
    ann_members: &Vec<TypeMember>,
    inf_members: &Vec<TypeMember>,
    stack: &mut Vec<Pair>,
) -> (complete: bool)
    requires
        graph.well_formed(),
        annotated < graph.size(),
        pairs_in_range(old(stack)@, graph.size()),
    ensures
        complete == object_literal_pairing(
            graph,
            annotated,
            ann_members@,
            inf_members@,
        ).complete,
        final(stack)@ == old(stack)@ + object_literal_pairing(
            graph,
            annotated,
            ann_members@,
            inf_members@,
        ).pairs,
        pairs_in_range(final(stack)@, graph.size()),
{
    assert(stack@ =~= stack@ + no_pairs().pairs);
    if ann_members.len() == 0 || inf_members.len() == 0 {
        return false;
    }
    push_named_pairs(graph, annotated, ann_members, annotated, inf_members, stack)
}

fn push_list_pairs(
    graph: &TypeGraph,
    annotated: TypeId,
    ann_refs: &Vec<TypeRef>,
    inferred: TypeId,
    inf_refs: &Vec<TypeRef>,
    stack: &mut Vec<Pair>,
) -> (complete: bool)
    requires
        graph.well_formed(),
        annotated < graph.size(),
        inferred < graph.size(),
        pairs_in_range(old(stack)@, graph.size()),
    ensures
        complete == list_pairing(graph, annotated, ann_refs@, inferred, inf_refs@).complete,
        final(stack)@ == old(stack)@ + list_pairing(
            graph,
            annotated,
            ann_refs@,
            inferred,
            inf_refs@,
        ).pairs,
        pairs_in_range(final(stack)@, graph.size()),
{
    let ghost before = stack@;
    assert(stack@ =~= before + no_pairs().pairs);
    if ann_refs.len() != inf_refs.len() || ann_refs.len() == 0 {
        return false;
    }
    let mut i: usize = 0;
    while i < ann_refs.len()
        invariant
            graph.well_formed(),
            annotated < graph.size(),
            inferred < graph.size(),
            before == old(stack)@,
            i <= ann_refs@.len(),
            ann_refs@.len() == inf_refs@.len(),
            ann_refs@.len() > 0,
            zip_pairing(graph, annotated, ann_refs@, inferred, inf_refs@, i as nat).complete,
            stack@ == before + zip_pairing(
                graph,
                annotated,
                ann_refs@,
                inferred,
                inf_refs@,
                i as nat,
            ).pairs,
            pairs_in_range(stack@, graph.size()),
        decreases ann_refs@.len() - i,
    {
        let ghost parts = zip_pairing(
            graph,
            annotated,
            ann_refs@,
            inferred,
            inf_refs@,
            (i + 1) as nat,
        );
        match (graph.resolve(annotated, ann_refs[i]), graph.resolve(inferred, inf_refs[i])) {
            (Some(a), Some(b)) => {
                stack.push((a, resolve_generic_chain(graph, b)));
                assert(stack@ =~= before + parts.pairs);
            },
            _ => {
                proof {
                    lemma_zip_pairing_stops(
                        graph,
                        annotated,
                        ann_refs@,
                        inferred,
                        inf_refs@,
                        (i + 1) as nat,
                        ann_refs@.len(),
                    );
                }
                return false;
            },
        }
        i = i + 1;
    }
    true
}

fn push_instance_pairs(
    graph: &TypeGraph,
    annotated: TypeId,
    ann_base: TypeRef,
    ann_params: &Vec<TypeRef>,
    inferred: TypeId,
    inf_base: TypeRef,
    inf_params: &Vec<TypeRef>,
    stack: &mut Vec<Pair>,
) -> (complete: bool)
    requires
        graph.well_formed(),
        annotated < graph.size(),
        inferred < graph.size(),
        pairs_in_range(old(stack)@, graph.size()),
    ensures
        complete == instance_pairing(
            graph,
            annotated,
            ann_base,
            ann_params@,
            inferred,
            inf_base,
            inf_params@,
        ).complete,
        final(stack)@ == old(stack)@ + instance_pairing(
            graph,
            annotated,
            ann_base,
            ann_params@,
            inferred,
            inf_base,
            inf_params@,
        ).pairs,
        pairs_in_range(final(stack)@, graph.size()),
{
    assert(stack@ =~= stack@ + no_pairs().pairs);
    let same_base = match (graph.resolve(annotated, ann_base), graph.resolve(inferred, inf_base)) {
        (Some(a), Some(b)) => types_match(graph, a, b),
        _ => false,
    };
    if !same_base {
        return false;
    }
    push_list_pairs(graph, annotated, ann_params, inferred, inf_params, stack)
}

/// Pushes the pairs that the parts of two compound types give.
fn push_compound_pairs(
    graph: &TypeGraph,
    annotated: TypeId,
    inferred: TypeId,
    stack: &mut Vec<Pair>,
) -> (complete: bool)
    requires
        graph.well_formed(),
        annotated < graph.size(),
        inferred < graph.size(),
        pairs_in_range(old(stack)@, graph.size()),
    ensures
        complete == compound_pairing(graph, annotated, inferred).complete,
        final(stack)@ == old(stack)@ + compound_pairing(graph, annotated, inferred).pairs,
        pairs_in_range(final(stack)@, graph.size()),
{
    assert(stack@ =~= stack@ + no_pairs().pairs);
    match (graph.data(annotated), graph.data(inferred)) {
        (
            TypeData::InstanceOf { ty: ann_base, type_parameters: ann_params },
            TypeData::InstanceOf { ty: inf_base, type_parameters: inf_params },
        ) => push_instance_pairs(
            graph,
            annotated,
            *ann_base,
            ann_params,
            inferred,
            *inf_base,
            inf_params,
            stack,
        ),
        (TypeData::Object { members: ann }, TypeData::Object { members: inf }) => {
            push_object_pairs(graph, annotated, ann, inferred, inf, stack)
        },
        (TypeData::Object { members: ann }, TypeData::Literal(Literal::Object(inf))) => {
            push_object_literal_pairs(graph, annotated, ann, inf, stack)
        },
        (TypeData::Tuple { elements: ann }, TypeData::Tuple { elements: inf }) => {
            push_list_pairs(graph, annotated, ann, inferred, inf, stack)
        },
        _ => false,
    }
}

/// Compares non-union type pairs using a work stack. Compound types are
/// decomposed into pairs of their parts, which go back onto the stack.
pub fn is_nonunion_wider(graph: &TypeGraph, annotated: TypeId, inferred: TypeId) -> (wider: bool)
    requires
        graph.well_formed(),
        annotated < graph.size(),
        inferred < graph.size(),
    ensures
        wider == nonunion_wider(graph, annotated, inferred),
{
    let mut stack: Vec<Pair> = Vec::new();
    stack.push((annotated, resolve_generic_chain(graph, inferred)));
    let mut found_wider = false;
    let mut iterations: usize = 0;
    assert(stack@ =~= seq![(annotated, generic_resolved(graph, inferred))]);
    loop
        invariant
            graph.well_formed(),
            iterations <= MAX_TYPE_TRAVERSAL_ITERATIONS,
            pairs_in_range(stack@, graph.size()),
            nonunion_wider(graph, annotated, inferred) == settled(
                widening(graph),
                stack@,
                (MAX_TYPE_TRAVERSAL_ITERATIONS - iterations) as nat,
                found_wider,
            ),
        decreases MAX_TYPE_TRAVERSAL_ITERATIONS - iterations,
    {
        let ghost pairs = stack@;
        let ghost budget = (MAX_TYPE_TRAVERSAL_ITERATIONS - iterations) as nat;
        match stack.pop() {
            None => {
                return found_wider;
            },
            Some((ann, inf)) => {
                if iterations >= MAX_TYPE_TRAVERSAL_ITERATIONS {
                    proof {
                        lemma_settled_exhausted(widening(graph), pairs, found_wider);
                    }
                    return false;
                }
                iterations = iterations + 1;
                assert(pairs.last() == (ann, inf));
                assert(stack@ == pairs.drop_last());
                proof {
                    lemma_settled_step(widening(graph), pairs, budget, found_wider);
                }
                if is_base_type_of_literal(graph, ann, inf) {
                    assert(stack@ =~= stack@ + Seq::<Pair>::empty());
                    found_wider = true;
                } else if types_match(graph, ann, inf) {
                    assert(stack@ =~= stack@ + Seq::<Pair>::empty());
                } else if !push_compound_pairs(graph, ann, inf, &mut stack) {
                    return false;
                }
            },
        }
    }
}

} // verus!

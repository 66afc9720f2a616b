//! Annotations that differ from what is returned only in the literals of properties.
use crate::matching::{base_of_literal, is_base_type_of_literal, same_type, types_match};
use crate::traversal::{
    finds_wider, lemma_settled_exhausted, lemma_settled_step, pairs_in_range, settled, Comparison,
    Pair, Step, MAX_TYPE_TRAVERSAL_ITERATIONS,
};
use crate::types::{ids_in_range, Literal, TypeData, TypeGraph, TypeId, TypeMember, TypeRef};
use crate::widening::{
    find_index_value_type, find_member, index_value_type, member_named, property_name,
    property_name_of,
};
use vstd::prelude::*;

verus! {

/// What comparing the parts of two types, one after the other, has come to. It
/// is incomplete from the first part on that has no counterpart.
pub struct Scan {
    /// The pairs that have yet to be compared.
    pub next: Seq<Pair>,
    /// Whether some literal was widened.
    pub widened: bool,
    pub complete: bool,
}

/// No parts yet.
pub open spec fn no_parts() -> Scan {
    Scan { next: Seq::empty(), widened: false, complete: true }
}

/// Takes up one part: equal types are done with, a literal and its base type
/// are a widening, and other types have yet to be compared.
pub open spec fn with_part(
    graph: &TypeGraph,
    before: Scan,
    annotated: Option<TypeId>,
    inferred: Option<TypeId>,
) -> Scan {
    match (annotated, inferred) {
        (Some(a), Some(b)) => if same_type(graph, a, b) {
            before
        } else if base_of_literal(graph, a, b) {
            Scan { next: before.next, widened: true, complete: before.complete }
        } else {
            Scan {
                next: before.next.push((a, b)),
                widened: before.widened,
                complete: before.complete,
            }
        },
        _ => Scan { next: before.next, widened: before.widened, complete: false },
    }
}

/// Takes up the first `count` elements of two tuples.
pub open spec fn element_scan(
    graph: &TypeGraph,
    annotated: TypeId,
    ann_elements: Seq<TypeRef>,
    inferred: TypeId,
    inf_elements: Seq<TypeRef>,
    count: nat,
) -> Scan
    decreases count,
{
    if count == 0 {
        no_parts()
    } else {
        let before = element_scan(
            graph,
            annotated,
            ann_elements,
            inferred,
            inf_elements,
            (count - 1) as nat,
        );
        if before.complete {
            with_part(
                graph,
                before,
                graph.resolved(annotated, ann_elements[count - 1]),
                graph.resolved(inferred, inf_elements[count - 1]),
            )
        } else {
            before
        }
    }
}

/// Takes up the properties among the first `count` annotated members, each with
/// the inferred member of that name.
pub open spec fn property_scan(
    graph: &TypeGraph,
    annotated: TypeId,
    ann_members: Seq<TypeMember>,
    inferred: TypeId,
    inf_members: Seq<TypeMember>,
    count: nat,
) -> Scan
    decreases count,
{
    if count == 0 {
        no_parts()
    } else {
        let before = property_scan(
            graph,
            annotated,
            ann_members,
            inferred,
            inf_members,
            (count - 1) as nat,
        );
        let member = ann_members[count - 1];
        if before.complete {
            match property_name(member.kind) {
                Some(name) => match member_named(inf_members, name) {
                    Some(counterpart) => with_part(
                        graph,
                        before,
                        graph.resolved(annotated, member.ty),
                        graph.resolved(inferred, counterpart.ty),
                    ),
                    None => Scan { next: before.next, widened: before.widened, complete: false },
                },
                None => before,
            }
        } else {
            before
        }
    }
}

/// The type of an inferred member is the one that an index signature admits,
/// or a literal of it.
pub open spec fn index_covers(
    graph: &TypeGraph,
    value: TypeId,
    inferred: TypeId,
    member: TypeMember,
) -> bool {
    match graph.resolved(inferred, member.ty) {
        Some(ty) => same_type(graph, value, ty) || base_of_literal(graph, value, ty),
        None => false,
    }
}

/// An index signature widens the type of an inferred member.
pub open spec fn index_widens(
    graph: &TypeGraph,
    value: TypeId,
    inferred: TypeId,
    member: TypeMember,
) -> bool {
    match graph.resolved(inferred, member.ty) {
        Some(ty) => !same_type(graph, value, ty) && base_of_literal(graph, value, ty),
        None => false,
    }
}

/// An index signature covers every member of the inferred type, and widens one.
pub open spec fn index_widening(
    graph: &TypeGraph,
    value: TypeId,
    inferred: TypeId,
    members: Seq<TypeMember>,
) -> bool {
    &&& forall|i: int|
        0 <= i < members.len() ==> index_covers(graph, value, inferred, #[trigger] members[i])
    &&& exists|i: int|
        0 <= i < members.len() && index_widens(graph, value, inferred, #[trigger] members[i])
}

/// The members of an inferred object, be it a type or a literal.
pub open spec fn members_of(graph: &TypeGraph, ty: TypeId) -> Option<Seq<TypeMember>> {
    match graph.data_of(ty) {
        TypeData::Object { members } => Some(members@),
        TypeData::Literal(Literal::Object(members)) => Some(members@),
        _ => None,
    }
}

/// What the parts of two types came to.
pub open spec fn scan_step(scan: Scan) -> Step {
    if scan.complete {
        Step::Checked { widened: scan.widened, next: scan.next }
    } else {
        Step::Mismatch
    }
}

/// Compares a tuple type with an inferred type.
pub open spec fn tuple_step(
    graph: &TypeGraph,
    annotated: TypeId,
    elements: Seq<TypeRef>,
    inferred: TypeId,
) -> Step {
    match graph.data_of(inferred) {
        TypeData::Tuple { elements: others } => if elements.len() != others@.len()
            || elements.len() == 0 {
            Step::Mismatch
        } else {
            scan_step(
                element_scan(graph, annotated, elements, inferred, others@, elements.len()),
            )
        },
        _ => Step::Mismatch,
    }
}

/// Compares an object type with an inferred type.
pub open spec fn object_step(
    graph: &TypeGraph,
    annotated: TypeId,
    members: Seq<TypeMember>,
    inferred: TypeId,
) -> Step {
    match members_of(graph, inferred) {
        Some(others) => if members.len() == 0 || others.len() == 0 {
            Step::Mismatch
        } else {
            match index_value_type(graph, annotated, members) {
                Some(value) => if index_widening(graph, value, inferred, others) {
                    Step::Checked { widened: true, next: Seq::empty() }
                } else {
                    Step::Mismatch
                },
                None => scan_step(
                    property_scan(graph, annotated, members, inferred, others, members.len()),
                ),
            }
        },
        None => Step::Mismatch,
    }
}

/// Compares an annotated tuple or object with an inferred type, part by part.
pub open spec fn property_step(graph: &TypeGraph, pair: Pair) -> Step {
    match graph.data_of(pair.0) {
        TypeData::Tuple { elements } => tuple_step(graph, pair.0, elements@, pair.1),
        TypeData::Object { members } => object_step(graph, pair.0, members@, pair.1),
        _ => Step::Mismatch,
    }
}

/// The comparison by [`property_step`].
pub open spec fn property_widening(graph: &TypeGraph) -> Comparison {
    |pair: Pair| property_step(graph, pair)
}

/// The annotation differs from every type in `returned`, and only by widening
/// the literals of elements and properties.
pub open spec fn only_property_widening(
    graph: &TypeGraph,
    annotation: TypeId,
    returned: Seq<TypeId>,
) -> bool {
    forall|i: int|
        0 <= i < returned.len() ==> finds_wider(
            property_widening(graph),
            (annotation, #[trigger] returned[i]),
        )
}

proof fn lemma_element_scan_stops(
    graph: &TypeGraph,
    annotated: TypeId,
    ann_elements: Seq<TypeRef>,
    inferred: TypeId,
    inf_elements: Seq<TypeRef>,
    count: nat,
    more: nat,
)
    requires
        count <= more,
        !element_scan(graph, annotated, ann_elements, inferred, inf_elements, count).complete,
    ensures
        !element_scan(graph, annotated, ann_elements, inferred, inf_elements, more).complete,
    decreases more,
{
    if count < more {
        lemma_element_scan_stops(
            graph,
            annotated,
            ann_elements,
            inferred,
            inf_elements,
            count,
            (more - 1) as nat,
        );
    }
}

proof fn lemma_property_scan_stops(
    graph: &TypeGraph,
    annotated: TypeId,
    ann_members: Seq<TypeMember>,
    inferred: TypeId,
    inf_members: Seq<TypeMember>,
    count: nat,
    more: nat,
)
    requires
        count <= more,
        !property_scan(graph, annotated, ann_members, inferred, inf_members, count).complete,
    ensures
        !property_scan(graph, annotated, ann_members, inferred, inf_members, more).complete,
    decreases more,
{
    if count < more {
        lemma_property_scan_stops(
            graph,
            annotated,
            ann_members,
            inferred,
            inf_members,
            count,
            (more - 1) as nat,
        );
    }
}

/// Takes up one part. Tells whether it is a widening, unless a type is missing.
fn take_part(
    graph: &TypeGraph,
    annotated: Option<TypeId>,
    inferred: Option<TypeId>,
    stack: &mut Vec<Pair>,
    Ghost(before): Ghost<Scan>,
) -> (widened: Option<bool>)
    requires
        graph.well_formed(),
        annotated matches Some(a) ==> a < graph.size(),
        inferred matches Some(b) ==> b < graph.size(),
        pairs_in_range(old(stack)@, graph.size()),
        before.complete,
    ensures
        pairs_in_range(final(stack)@, graph.size()),
        widened is Some <==> with_part(graph, before, annotated, inferred).complete,
        widened matches Some(found) ==> {
            let after = with_part(graph, before, annotated, inferred);
            &&& after.widened == (before.widened || found)
            &&& forall|base: Seq<Pair>|
                old(stack)@ == base + before.next ==> final(stack)@ == #[trigger] (base
                    + after.next)
        },
{
    match (annotated, inferred) {
        (Some(a), Some(b)) => {
            if types_match(graph, a, b) {
                return Some(false);
            }
            if is_base_type_of_literal(graph, a, b) {
                return Some(true);
            }
            let ghost previous = stack@;
            stack.push((a, b));
            proof {
                let after = with_part(graph, before, annotated, inferred);
                assert forall|base: Seq<Pair>| previous == base + before.next implies stack@
                    == #[trigger] (base + after.next) by {
                    assert(stack@ =~= base + after.next);
                }
            }
            Some(false)
        },
        _ => None,
    }
}

fn compare_elements(
    graph: &TypeGraph,
    annotated: TypeId,
    elements: &Vec<TypeRef>,
    inferred: TypeId,
    stack: &mut Vec<Pair>,
) -> (widened: Option<bool>)
    requires
        graph.well_formed(),
        annotated < graph.size(),
        inferred < graph.size(),
        pairs_in_range(old(stack)@, graph.size()),
    ensures
        pairs_in_range(final(stack)@, graph.size()),
        match tuple_step(graph, annotated, elements@, inferred) {
            Step::Mismatch => widened is None,
            Step::Checked { widened: wider, next } => {
                &&& widened == Some(wider)
                &&& final(stack)@ == old(stack)@ + next
            },
        },
{
    let others = match graph.data(inferred) {
        TypeData::Tuple { elements: others } => others,
        _ => {
            return None;
        },
    };
    if elements.len() != others.len() || elements.len() == 0 {
        return None;
    }
    let ghost base = stack@;
    let mut has_widening = false;
    let mut i: usize = 0;
    assert(stack@ =~= base + no_parts().next);
    while i < elements.len()
        invariant
            graph.well_formed(),
            annotated < graph.size(),
            inferred < graph.size(),
            pairs_in_range(stack@, graph.size()),
            base == old(stack)@,
            i <= elements@.len(),
            elements@.len() == others@.len(),
            elements@.len() > 0,
            graph.data_of(inferred) is Tuple,
            graph.data_of(inferred)->elements == *others,
            ({
                let scan = element_scan(
                    graph,
                    annotated,
                    elements@,
                    inferred,
                    others@,
                    i as nat,
                );
                &&& scan.complete
                &&& scan.widened == has_widening
                &&& stack@ == base + scan.next
            }),
        decreases elements@.len() - i,
    {
        let ghost scan = element_scan(graph, annotated, elements@, inferred, others@, i as nat);
        match take_part(
            graph,
            graph.resolve(annotated, elements[i]),
            graph.resolve(inferred, others[i]),
            stack,
            Ghost(scan),
        ) {
            Some(found) => {
                has_widening = has_widening || found;
            },
            None => {
                proof {
                    lemma_element_scan_stops(
                        graph,
                        annotated,
                        elements@,
                        inferred,
                        others@,
                        (i + 1) as nat,
                        elements@.len(),
                    );
                }
                return None;
            },
        }
        i = i + 1;
    }
    Some(has_widening)
}

/// Whether an index signature covers every member of the inferred type, and widens one.
fn is_index_widening(
    graph: &TypeGraph,
    value: TypeId,
    inferred: TypeId,
    members: &Vec<TypeMember>,
) -> (widening: bool)
    requires
        graph.well_formed(),
        value < graph.size(),
        inferred < graph.size(),
    ensures
        widening == index_widening(graph, value, inferred, members@),
{
    let mut has_widening = false;
    let mut i: usize = 0;
    while i < members.len()
        invariant
            graph.well_formed(),
            value < graph.size(),
            inferred < graph.size(),
            i <= members@.len(),
            forall|j: int|
                0 <= j < i ==> index_covers(graph, value, inferred, #[trigger] members@[j]),
            has_widening <==> exists|j: int|
                0 <= j < i && index_widens(graph, value, inferred, #[trigger] members@[j]),
        decreases members@.len() - i,
    {
        let mut covered = false;
        let mut widened = false;
        if let Some(ty) = graph.resolve(inferred, members[i].ty) {
            if types_match(graph, value, ty) {
                covered = true;
            } else if is_base_type_of_literal(graph, value, ty) {
                covered = true;
                widened = true;
            }
        }
        assert(covered == index_covers(graph, value, inferred, members@[i as int]));
        assert(widened == index_widens(graph, value, inferred, members@[i as int]));
        if !covered {
            return false;
        }
        has_widening = has_widening || widened;
        i = i + 1;
    }
    has_widening
}

fn members_of_inferred(graph: &TypeGraph, ty: TypeId) -> (members: Option<&Vec<TypeMember>>)
    requires
        ty < graph.size(),
    ensures
        members is Some <==> members_of(graph, ty) is Some,
        members matches Some(found) ==> members_of(graph, ty) == Some(found@),
{
    match graph.data(ty) {
        TypeData::Object { members } => Some(members),
        TypeData::Literal(Literal::Object(members)) => Some(members),
        _ => None,
    }
}

fn compare_members(
    graph: &TypeGraph,
    annotated: TypeId,
    members: &Vec<TypeMember>,
    inferred: TypeId,
    stack: &mut Vec<Pair>,
) -> (widened: Option<bool>)
    requires
        graph.well_formed(),
        annotated < graph.size(),
        inferred < graph.size(),
        pairs_in_range(old(stack)@, graph.size()),
    ensures
        pairs_in_range(final(stack)@, graph.size()),
        match object_step(graph, annotated, members@, inferred) {
            Step::Mismatch => widened is None,
            Step::Checked { widened: wider, next } => {
                &&& widened == Some(wider)
                &&& final(stack)@ == old(stack)@ + next
            },
        },
{
    let others = match members_of_inferred(graph, inferred) {
        Some(others) => others,
        None => {
            return None;
        },
    };
    if members.len() == 0 || others.len() == 0 {
        return None;
    }
    let ghost base = stack@;
    assert(stack@ =~= base + no_parts().next);
    if let Some(value) = find_index_value_type(graph, annotated, members) {
        if is_index_widening(graph, value, inferred, others) {
            return Some(true);
        }
        return None;
    }
    let mut has_widening = false;
    let mut i: usize = 0;
    while i < members.len()
        invariant
            graph.well_formed(),
            annotated < graph.size(),
            inferred < graph.size(),
            pairs_in_range(stack@, graph.size()),
            base == old(stack)@,
            i <= members@.len(),
            object_step(graph, annotated, members@, inferred) == scan_step(
                property_scan(
                    graph,
                    annotated,
                    members@,
                    inferred,
                    others@,
                    members@.len(),
                ),
            ),
            ({
                let scan = property_scan(
                    graph,
                    annotated,
                    members@,
                    inferred,
                    others@,
                    i as nat,
                );
                &&& scan.complete
                &&& scan.widened == has_widening
                &&& stack@ == base + scan.next
            }),
        decreases members@.len() - i,
    {
        let ghost scan = property_scan(graph, annotated, members@, inferred, others@, i as nat);
        let member = &members[i];
        if let Some(name) = property_name_of(&member.kind) {
            let part = match find_member(others, name) {
                Some(counterpart) => take_part(
                    graph,
                    graph.resolve(annotated, member.ty),
                    graph.resolve(inferred, counterpart.ty),
                    stack,
                    Ghost(scan),
                ),
                None => None,
            };
            match part {
                Some(found) => {
                    has_widening = has_widening || found;
                },
                None => {
                    proof {
                        lemma_property_scan_stops(
                            graph,
                            annotated,
                            members@,
                            inferred,
                            others@,
                            (i + 1) as nat,
                            members@.len(),
                        );
                    }
                    return None;
                },
            }
        }
        i = i + 1;
    }
    Some(has_widening)
}

/// Whether an annotation differs from one returned type only by widening the
/// literals of elements and properties.
fn is_property_widening_of(graph: &TypeGraph, annotation: TypeId, returned: TypeId) -> (only: bool)
    requires
        graph.well_formed(),
        annotation < graph.size(),
        returned < graph.size(),
    ensures
        only == finds_wider(property_widening(graph), (annotation, returned)),
{
    let mut stack: Vec<Pair> = Vec::new();
    stack.push((annotation, returned));
    let mut has_widening = false;
    let mut iterations: usize = 0;
    assert(stack@ =~= seq![(annotation, returned)]);
    loop
        invariant
            graph.well_formed(),
            iterations <= MAX_TYPE_TRAVERSAL_ITERATIONS,
            pairs_in_range(stack@, graph.size()),
            finds_wider(property_widening(graph), (annotation, returned)) == settled(
                property_widening(graph),
                stack@,
                (MAX_TYPE_TRAVERSAL_ITERATIONS - iterations) as nat,
                has_widening,
            ),
        decreases MAX_TYPE_TRAVERSAL_ITERATIONS - iterations,
    {
        let ghost pairs = stack@;
        let ghost budget = (MAX_TYPE_TRAVERSAL_ITERATIONS - iterations) as nat;
        match stack.pop() {
            None => {
                return has_widening;
            },
            Some((annotated, inferred)) => {
                if iterations >= MAX_TYPE_TRAVERSAL_ITERATIONS {
                    proof {
                        lemma_settled_exhausted(property_widening(graph), pairs, has_widening);
                    }
                    return false;
                }
                iterations = iterations + 1;
                assert(pairs.last() == (annotated, inferred));
                assert(stack@ == pairs.drop_last());
                proof {
                    lemma_settled_step(property_widening(graph), pairs, budget, has_widening);
                }
                let compared = match graph.data(annotated) {
                    TypeData::Tuple { elements } => {
                        compare_elements(graph, annotated, elements, inferred, &mut stack)
                    },
                    TypeData::Object { members } => {
                        compare_members(graph, annotated, members, inferred, &mut stack)
                    },
                    _ => None,
                };
                match compared {
                    Some(widened) => {
                        has_widening = has_widening || widened;
                    },
                    None => {
                        return false;
                    },
                }
            },
        }
    }
}

/// Checks whether the annotation differs from what is returned only by
/// property-level literal widening that contextual typing would handle.
pub fn is_only_property_literal_widening(
    graph: &TypeGraph,
    annotation: TypeId,
    returned: &Vec<TypeId>,
) -> (only: bool)
    requires
        graph.well_formed(),
        annotation < graph.size(),
        ids_in_range(returned@, graph.size()),
    ensures
        only == only_property_widening(graph, annotation, returned@),
{
    let mut i: usize = 0;
    while i < returned.len()
        invariant
            graph.well_formed(),
            annotation < graph.size(),
            ids_in_range(returned@, graph.size()),
            i <= returned@.len(),
            forall|j: int|
                0 <= j < i ==> finds_wider(
                    property_widening(graph),
                    (annotation, #[trigger] returned@[j]),
                ),
        decreases returned@.len() - i,
    {
        if !is_property_widening_of(graph, annotation, returned[i]) {
            return false;
        }
        i = i + 1;
    }
    true
}

} // verus!

//! What comparing two types comes to, part by part.
use crate::laws::lemma_base_does_not_match;
use crate::matching::{base_of_literal, generic_resolved, same_type};
use crate::property::{
    element_scan, index_covers, index_widening, index_widens, only_property_widening,
    property_scan, property_step, property_widening,
};
use crate::traversal::{Pair, Step};
use crate::types::{Literal, TypeData, TypeGraph, TypeId, TypeMember, TypeMemberKind, TypeRef};
use crate::widening::{
    answers_to, first_index_signature, first_named, index_pairing, index_value_type, member_named,
    named_pairing, property_name, widening_step, zip_pairing,
};
use vstd::prelude::*;

verus! {

/// Both lists are equally long, and every reference stands for a type.
pub open spec fn both_known(
    graph: &TypeGraph,
    a: TypeId,
    first: Seq<TypeRef>,
    b: TypeId,
    second: Seq<TypeRef>,
) -> bool {
    first.len() == second.len() && forall|i: int|
        0 <= i < first.len() ==> graph.resolved(a, #[trigger] first[i]) is Some && graph.resolved(
            b,
            second[i],
        ) is Some
}

/// The types that the references of two lists stand for, place by place.
pub open spec fn places(
    graph: &TypeGraph,
    a: TypeId,
    first: Seq<TypeRef>,
    b: TypeId,
    second: Seq<TypeRef>,
) -> Seq<Pair> {
    Seq::new(
        first.len(),
        |i: int| (graph.resolved(a, first[i])->0, graph.resolved(b, second[i])->0),
    )
}

/// Neither the same type, nor a literal and its base type.
pub open spec fn open_question(graph: &TypeGraph) -> spec_fn(Pair) -> bool {
    |pair: Pair| !same_type(graph, pair.0, pair.1) && !base_of_literal(graph, pair.0, pair.1)
}

/// Some pair is a literal and its base type.
pub open spec fn some_literal_widened(graph: &TypeGraph, pairs: Seq<Pair>) -> bool {
    exists|i: int|
        0 <= i < pairs.len() && base_of_literal(graph, (#[trigger] pairs[i]).0, pairs[i].1)
}

/// What pairs of parts come to where literals may be widened: those that are
/// neither the same nor a literal and its base have yet to be compared.
pub open spec fn allowing_literals(graph: &TypeGraph, pairs: Seq<Pair>) -> Step {
    Step::Checked {
        widened: some_literal_widened(graph, pairs),
        next: pairs.filter(open_question(graph)),
    }
}

proof fn lemma_push_pair(graph: &TypeGraph, pairs: Seq<Pair>, pair: Pair)
    ensures
        pairs.push(pair).filter(open_question(graph)) == if open_question(graph)(pair) {
            pairs.filter(open_question(graph)).push(pair)
        } else {
            pairs.filter(open_question(graph))
        },
        some_literal_widened(graph, pairs.push(pair)) == (some_literal_widened(graph, pairs)
            || base_of_literal(graph, pair.0, pair.1)),
{
    reveal(Seq::filter);
    let more = pairs.push(pair);
    assert(more.drop_last() =~= pairs);
    assert(more.last() == pair);
    if some_literal_widened(graph, pairs) {
        let i = choose|i: int|
            0 <= i < pairs.len() && base_of_literal(graph, (#[trigger] pairs[i]).0, pairs[i].1);
        assert(more[i] == pairs[i]);
    }
    if base_of_literal(graph, pair.0, pair.1) {
        assert(more[pairs.len() as int] == pair);
    }
    if some_literal_widened(graph, more) {
        let i = choose|i: int|
            0 <= i < more.len() && base_of_literal(graph, (#[trigger] more[i]).0, more[i].1);
        if i < pairs.len() {
            assert(pairs[i] == more[i]);
        }
    }
}

proof fn lemma_element_scan(
    graph: &TypeGraph,
    a: TypeId,
    first: Seq<TypeRef>,
    b: TypeId,
    second: Seq<TypeRef>,
    count: nat,
)
    requires
        first.len() == second.len(),
        count <= first.len(),
    ensures
        ({
            let scan = element_scan(graph, a, first, b, second, count);
            let pairs = places(graph, a, first, b, second).take(count as int);
            &&& scan.complete <==> forall|i: int|
                0 <= i < count ==> graph.resolved(a, #[trigger] first[i]) is Some
                    && graph.resolved(b, second[i]) is Some
            &&& scan.complete ==> scan.next == pairs.filter(open_question(graph)) && scan.widened
                == some_literal_widened(graph, pairs)
        }),
    decreases count,
{
    let all = places(graph, a, first, b, second);
    if count == 0 {
        reveal(Seq::filter);
        assert(all.take(0).len() == 0);
    } else {
        let last = count - 1;
        lemma_element_scan(graph, a, first, b, second, (count - 1) as nat);
        let pairs = all.take(last);
        let scan = element_scan(graph, a, first, b, second, count);
        assert(all.take(count as int) =~= pairs.push(all[last]));
        lemma_push_pair(graph, pairs, all[last]);
        if graph.resolved(a, first[last]) is Some && graph.resolved(b, second[last]) is Some {
            lemma_base_does_not_match(graph, all[last].0, all[last].1);
        }
        if scan.complete {
            assert forall|i: int| 0 <= i < count implies graph.resolved(a, #[trigger] first[i])
                is Some && graph.resolved(b, second[i]) is Some by {
                if i == last {
                }
            }
        }
    }
}

/// Tuples are compared element by element where literals may be widened: they
/// have to be equally long and not empty. Nothing but a tuple compares with a tuple.
pub proof fn law_literals_in_tuples(graph: &TypeGraph, a: TypeId, b: TypeId, first: Vec<TypeRef>)
    requires
        graph.data_of(a) == (TypeData::Tuple { elements: first }),
    ensures
        match graph.data_of(b) {
            TypeData::Tuple { elements: second } => property_step(graph, (a, b)) == if first@.len()
                > 0 && both_known(graph, a, first@, b, second@) {
                allowing_literals(graph, places(graph, a, first@, b, second@))
            } else {
                Step::Mismatch
            },
            _ => property_step(graph, (a, b)) is Mismatch,
        },
{
    if let TypeData::Tuple { elements: second } = graph.data_of(b) {
        if first@.len() == second@.len() {
            let all = places(graph, a, first@, b, second@);
            lemma_element_scan(graph, a, first@, b, second@, first@.len());
            assert(all.take(first@.len() as int) =~= all);
        }
    }
}

/// The member is a property, be it optional or not.
pub open spec fn is_property(member: TypeMember) -> bool {
    member.kind is Named || member.kind is NamedOptional
}

/// The name of a member that has one.
pub open spec fn name_of(kind: TypeMemberKind) -> Option<Seq<char>> {
    match kind {
        TypeMemberKind::Constructor => Some("constructor"@),
        TypeMemberKind::Getter(name) => Some(name@),
        TypeMemberKind::Named(name) => Some(name@),
        TypeMemberKind::NamedOptional(name) => Some(name@),
        TypeMemberKind::NamedStatic(name) => Some(name@),
        TypeMemberKind::CallSignature => None,
        TypeMemberKind::IndexSignature(_) => None,
    }
}

/// A member is found under its name, whatever its kind: the first of that name.
pub proof fn law_members_are_found_by_name(members: Seq<TypeMember>, name: Seq<char>, at: int)
    requires
        0 <= at <= members.len(),
        forall|i: int| 0 <= i < at ==> name_of((#[trigger] members[i]).kind) != Some(name),
        at < members.len() ==> name_of(members[at].kind) == Some(name),
    ensures
        at < members.len() ==> member_named(members, name) == Some(members[at]),
        at == members.len() ==> member_named(members, name) is None,
        forall|kind: TypeMemberKind| #[trigger]
            answers_to(kind, name) <==> name_of(kind) == Some(name),
        forall|member: TypeMember|
            property_name(#[trigger] member.kind) == if is_property(member) {
                name_of(member.kind)
            } else {
                None
            },
{
    crate::laws::lemma_first_named(members, name, members.len());
    lemma_first_named_is_first(members, name, members.len());
    if let Some(found) = first_named(members, name, members.len()) {
        if at < members.len() {
            assert(answers_to(members[at].kind, name));
            if found < at {
                assert(name_of(members[found as int].kind) != Some(name));
            }
        } else {
            assert(name_of(members[found as int].kind) != Some(name));
        }
    }
}

proof fn lemma_first_named_is_first(members: Seq<TypeMember>, name: Seq<char>, count: nat)
    requires
        count <= members.len(),
    ensures
        first_named(members, name, count) matches Some(found) ==> forall|i: int|
            0 <= i < found ==> !answers_to((#[trigger] members[i]).kind, name),
    decreases count,
{
    if count > 0 {
        lemma_first_named_is_first(members, name, (count - 1) as nat);
        crate::laws::lemma_first_named(members, name, (count - 1) as nat);
    }
}

/// The values that an object admits under any key are those of its first index
/// signature.
pub proof fn law_the_first_index_signature_counts(
    graph: &TypeGraph,
    ty: TypeId,
    members: Seq<TypeMember>,
    at: int,
)
    requires
        0 <= at <= members.len(),
        forall|i: int| 0 <= i < at ==> !((#[trigger] members[i]).kind is IndexSignature),
        at < members.len() ==> members[at].kind is IndexSignature,
    ensures
        at < members.len() ==> index_value_type(graph, ty, members) == graph.resolved(
            ty,
            members[at].ty,
        ),
        at == members.len() ==> index_value_type(graph, ty, members) is None,
{
    lemma_first_index_signature(members, members.len(), at);
}

proof fn lemma_first_index_signature(members: Seq<TypeMember>, count: nat, at: int)
    requires
        count <= members.len(),
        0 <= at <= members.len(),
        forall|i: int| 0 <= i < at ==> !((#[trigger] members[i]).kind is IndexSignature),
        at < members.len() ==> members[at].kind is IndexSignature,
    ensures
        first_index_signature(members, count) == if at < count {
            Some(at as nat)
        } else {
            None
        },
    decreases count,
{
    if count > 0 {
        lemma_first_index_signature(members, (count - 1) as nat, at);
    }
}

/// The properties among members, in order.
pub open spec fn properties(members: Seq<TypeMember>) -> Seq<TypeMember> {
    members.filter(|member: TypeMember| is_property(member))
}

/// The types of a property and of the member that is found under its name, if
/// both are known.
pub open spec fn property_pair(
    graph: &TypeGraph,
    a: TypeId,
    property: TypeMember,
    b: TypeId,
    others: Seq<TypeMember>,
) -> Option<Pair> {
    match member_named(others, name_of(property.kind)->0) {
        Some(other) => match (graph.resolved(a, property.ty), graph.resolved(b, other.ty)) {
            (Some(x), Some(y)) => Some((x, y)),
            _ => None,
        },
        None => None,
    }
}

/// Every property has its counterpart.
pub open spec fn all_paired(
    graph: &TypeGraph,
    a: TypeId,
    wanted: Seq<TypeMember>,
    b: TypeId,
    others: Seq<TypeMember>,
) -> bool {
    forall|i: int|
        0 <= i < wanted.len() ==> property_pair(graph, a, #[trigger] wanted[i], b, others) is Some
}

/// The types of properties and of their counterparts.
pub open spec fn property_pairs(
    graph: &TypeGraph,
    a: TypeId,
    wanted: Seq<TypeMember>,
    b: TypeId,
    others: Seq<TypeMember>,
) -> Seq<Pair> {
    Seq::new(wanted.len(), |i: int| property_pair(graph, a, wanted[i], b, others)->0)
}

proof fn lemma_properties_push(members: Seq<TypeMember>, count: nat)
    requires
        0 < count <= members.len(),
    ensures
        properties(members.take(count as int)) == if is_property(members[count - 1]) {
            properties(members.take(count - 1)).push(members[count - 1])
        } else {
            properties(members.take(count - 1))
        },
{
    reveal(Seq::filter);
    assert(members.take(count as int).drop_last() =~= members.take(count - 1));
    assert(members.take(count as int).last() == members[count - 1]);
}

proof fn lemma_all_paired_push(
    graph: &TypeGraph,
    a: TypeId,
    wanted: Seq<TypeMember>,
    property: TypeMember,
    b: TypeId,
    others: Seq<TypeMember>,
)
    ensures
        all_paired(graph, a, wanted.push(property), b, others) == (all_paired(
            graph,
            a,
            wanted,
            b,
            others,
        ) && property_pair(graph, a, property, b, others) is Some),
        property_pairs(graph, a, wanted.push(property), b, others) == property_pairs(
            graph,
            a,
            wanted,
            b,
            others,
        ).push(property_pair(graph, a, property, b, others)->0),
{
    let more = wanted.push(property);
    if all_paired(graph, a, more, b, others) {
        assert forall|i: int| 0 <= i < wanted.len() implies property_pair(
            graph,
            a,
            #[trigger] wanted[i],
            b,
            others,
        ) is Some by {
            assert(more[i] == wanted[i]);
        }
        assert(more[wanted.len() as int] == property);
    }
    if all_paired(graph, a, wanted, b, others) && property_pair(graph, a, property, b, others)
        is Some {
        assert forall|i: int| 0 <= i < more.len() implies property_pair(
            graph,
            a,
            #[trigger] more[i],
            b,
            others,
        ) is Some by {
            if i < wanted.len() {
                assert(more[i] == wanted[i]);
            }
        }
    }
    assert(property_pairs(graph, a, more, b, others) =~= property_pairs(
        graph,
        a,
        wanted,
        b,
        others,
    ).push(property_pair(graph, a, property, b, others)->0));
}

proof fn lemma_property_scan(
    graph: &TypeGraph,
    a: TypeId,
    members: Seq<TypeMember>,
    b: TypeId,
    others: Seq<TypeMember>,
    count: nat,
)
    requires
        count <= members.len(),
    ensures
        ({
            let scan = property_scan(graph, a, members, b, others, count);
            let wanted = properties(members.take(count as int));
            let pairs = property_pairs(graph, a, wanted, b, others);
            &&& scan.complete == all_paired(graph, a, wanted, b, others)
            &&& scan.complete ==> scan.next == pairs.filter(open_question(graph)) && scan.widened
                == some_literal_widened(graph, pairs)
        }),
    decreases count,
{
    if count == 0 {
        reveal(Seq::filter);
        assert(members.take(0).len() == 0);
        assert(properties(members.take(0)).len() == 0);
        let pairs = property_pairs(graph, a, properties(members.take(0)), b, others);
        assert(pairs.len() == 0);
    } else {
        let last = members[count - 1];
        let before = properties(members.take(count - 1));
        lemma_property_scan(graph, a, members, b, others, (count - 1) as nat);
        lemma_properties_push(members, count);
        if is_property(last) {
            lemma_all_paired_push(graph, a, before, last, b, others);
            lemma_push_pair(
                graph,
                property_pairs(graph, a, before, b, others),
                property_pair(graph, a, last, b, others)->0,
            );
            if let Some(pair) = property_pair(graph, a, last, b, others) {
                lemma_base_does_not_match(graph, pair.0, pair.1);
            }
        }
    }
}

/// The members of an object type or of an object literal.
pub open spec fn members_in(data: TypeData) -> Option<Seq<TypeMember>> {
    match data {
        TypeData::Object { members } => Some(members@),
        TypeData::Literal(Literal::Object(members)) => Some(members@),
        _ => None,
    }
}

/// The type is known, and is the same as another, or a literal of it.
pub open spec fn fits(graph: &TypeGraph, value: TypeId, ty: Option<TypeId>) -> bool {
    ty matches Some(found) && (same_type(graph, value, found) || base_of_literal(
        graph,
        value,
        found,
    ))
}

/// Objects are compared property by property where literals may be widened. An
/// index signature admits all members, provided that each has its type or is a
/// literal of it, and one of them is.
pub proof fn law_literals_in_objects(
    graph: &TypeGraph,
    a: TypeId,
    b: TypeId,
    first: Vec<TypeMember>,
)
    requires
        graph.data_of(a) == (TypeData::Object { members: first }),
    ensures
        match members_in(graph.data_of(b)) {
            Some(others) => if first@.len() == 0 || others.len() == 0 {
                property_step(graph, (a, b)) is Mismatch
            } else {
                match index_value_type(graph, a, first@) {
                    Some(value) => property_step(graph, (a, b)) == if (forall|i: int|
                        0 <= i < others.len() ==> fits(
                            graph,
                            value,
                            graph.resolved(b, (#[trigger] others[i]).ty),
                        )) && (exists|i: int|
                        0 <= i < others.len() && base_of_literal(
                            graph,
                            value,
                            graph.resolved(b, (#[trigger] others[i]).ty)->0,
                        )) {
                        Step::Checked { widened: true, next: Seq::empty() }
                    } else {
                        Step::Mismatch
                    },
                    None => property_step(graph, (a, b)) == if all_paired(
                        graph,
                        a,
                        properties(first@),
                        b,
                        others,
                    ) {
                        allowing_literals(
                            graph,
                            property_pairs(graph, a, properties(first@), b, others),
                        )
                    } else {
                        Step::Mismatch
                    },
                }
            },
            None => property_step(graph, (a, b)) is Mismatch,
        },
{
    if let Some(others) = members_in(graph.data_of(b)) {
        if let Some(value) = index_value_type(graph, a, first@) {
            lemma_index_widening(graph, value, b, others);
        }
        lemma_property_scan(graph, a, first@, b, others, first@.len());
        assert(first@.take(first@.len() as int) =~= first@);
    }
}

proof fn lemma_index_widening(
    graph: &TypeGraph,
    value: TypeId,
    b: TypeId,
    others: Seq<TypeMember>,
)
    ensures
        index_widening(graph, value, b, others) == ((forall|i: int|
            0 <= i < others.len() ==> fits(
                graph,
                value,
                graph.resolved(b, (#[trigger] others[i]).ty),
            )) && (exists|i: int|
            0 <= i < others.len() && base_of_literal(
                graph,
                value,
                graph.resolved(b, (#[trigger] others[i]).ty)->0,
            ))),
{
    assert forall|i: int| 0 <= i < others.len() implies fits(
        graph,
        value,
        graph.resolved(b, (#[trigger] others[i]).ty),
    ) == index_covers(graph, value, b, others[i]) && (fits(
        graph,
        value,
        graph.resolved(b, others[i].ty),
    ) && base_of_literal(graph, value, graph.resolved(b, others[i].ty)->0)) == index_widens(
        graph,
        value,
        b,
        others[i],
    ) by {
        if let Some(ty) = graph.resolved(b, others[i].ty) {
            lemma_base_does_not_match(graph, value, ty);
        }
    }
    if index_widening(graph, value, b, others) {
        let i = choose|i: int|
            0 <= i < others.len() && index_widens(graph, value, b, #[trigger] others[i]);
        assert(base_of_literal(graph, value, graph.resolved(b, others[i].ty)->0));
    }
    if (forall|i: int|
        0 <= i < others.len() ==> fits(graph, value, graph.resolved(b, (#[trigger] others[i]).ty)))
        && (exists|i: int|
        0 <= i < others.len() && base_of_literal(
            graph,
            value,
            graph.resolved(b, (#[trigger] others[i]).ty)->0,
        )) {
        let i = choose|i: int|
            0 <= i < others.len() && base_of_literal(
                graph,
                value,
                graph.resolved(b, (#[trigger] others[i]).ty)->0,
            );
        assert(index_widens(graph, value, b, others[i]));
        assert forall|k: int| 0 <= k < others.len() implies index_covers(
            graph,
            value,
            b,
            #[trigger] others[k],
        ) by {
            assert(fits(graph, value, graph.resolved(b, others[k].ty)));
        }
    }
}

/// Only tuples and objects hold literals that may be widened.
pub proof fn law_literals_are_widened_in_tuples_and_objects_only(
    graph: &TypeGraph,
    a: TypeId,
    b: TypeId,
)
    requires
        !(graph.data_of(a) is Tuple),
        !(graph.data_of(a) is Object),
    ensures
        property_step(graph, (a, b)) is Mismatch,
        !only_property_widening(graph, a, seq![b]),
{
    let pair = (a, b);
    assert(property_widening(graph)(pair) == property_step(graph, pair));
    crate::laws::lemma_mismatch(property_widening(graph), pair);
    assert(seq![b][0] == b);
}

proof fn lemma_nothing_open(graph: &TypeGraph, pairs: Seq<Pair>)
    requires
        forall|i: int|
            0 <= i < pairs.len() ==> same_type(graph, (#[trigger] pairs[i]).0, pairs[i].1)
                || base_of_literal(graph, pairs[i].0, pairs[i].1),
    ensures
        pairs.filter(open_question(graph)) == Seq::<Pair>::empty(),
    decreases pairs.len(),
{
    reveal(Seq::filter);
    if pairs.len() > 0 {
        let rest = pairs.drop_last();
        assert forall|i: int| 0 <= i < rest.len() implies same_type(
            graph,
            (#[trigger] rest[i]).0,
            rest[i].1,
        ) || base_of_literal(graph, rest[i].0, rest[i].1) by {
            assert(rest[i] == pairs[i]);
        }
        lemma_nothing_open(graph, rest);
        assert(pairs[pairs.len() - 1] == pairs.last());
    }
}

/// A tuple of which every element is the same as the returned one in its place, or
/// the base type of the literal there, differs only by widened literals exactly
/// when the latter happens somewhere. It is then not reported without `as const`.
pub proof fn law_tuples_of_widened_literals(
    graph: &TypeGraph,
    a: TypeId,
    first: Vec<TypeRef>,
    b: TypeId,
    second: Vec<TypeRef>,
)
    requires
        graph.data_of(a) == (TypeData::Tuple { elements: first }),
        graph.data_of(b) == (TypeData::Tuple { elements: second }),
        first@.len() > 0,
        both_known(graph, a, first@, b, second@),
        forall|i: int|
            0 <= i < first@.len() ==> {
                let x = graph.resolved(a, #[trigger] first@[i])->0;
                let y = graph.resolved(b, second@[i])->0;
                same_type(graph, x, y) || base_of_literal(graph, x, y)
            },
    ensures
        only_property_widening(graph, a, seq![b]) <==> exists|i: int|
            0 <= i < first@.len() && base_of_literal(
                graph,
                graph.resolved(a, #[trigger] first@[i])->0,
                graph.resolved(b, second@[i])->0,
            ),
        only_property_widening(graph, a, seq![b]) ==> !crate::rule::misleading(
            graph,
            a,
            seq![b],
            false,
        ),
{
    let pairs = places(graph, a, first@, b, second@);
    let pair = (a, b);
    law_literals_in_tuples(graph, a, b, first);
    assert forall|i: int| 0 <= i < pairs.len() implies same_type(
        graph,
        (#[trigger] pairs[i]).0,
        pairs[i].1,
    ) || base_of_literal(graph, pairs[i].0, pairs[i].1) by {
        assert(graph.resolved(a, first@[i]) is Some);
    }
    lemma_nothing_open(graph, pairs);
    assert(property_widening(graph)(pair) == property_step(graph, pair));
    crate::laws::lemma_leaf(
        property_widening(graph),
        pair,
        some_literal_widened(graph, pairs),
    );
    assert(seq![b][0] == b);
    if some_literal_widened(graph, pairs) {
        let i = choose|i: int|
            0 <= i < pairs.len() && base_of_literal(graph, (#[trigger] pairs[i]).0, pairs[i].1);
        assert(base_of_literal(
            graph,
            graph.resolved(a, first@[i])->0,
            graph.resolved(b, second@[i])->0,
        ));
    }
    if exists|i: int|
        0 <= i < first@.len() && base_of_literal(
            graph,
            graph.resolved(a, #[trigger] first@[i])->0,
            graph.resolved(b, second@[i])->0,
        ) {
        let i = choose|i: int|
            0 <= i < first@.len() && base_of_literal(
                graph,
                graph.resolved(a, #[trigger] first@[i])->0,
                graph.resolved(b, second@[i])->0,
            );
        assert(base_of_literal(graph, pairs[i].0, pairs[i].1));
    }
}

/// An object without index signature of which every property is the same as the
/// returned one of its name, or the base type of the literal there, differs only
/// by widened literals exactly when the latter happens somewhere.
pub proof fn law_objects_of_widened_literals(
    graph: &TypeGraph,
    a: TypeId,
    first: Vec<TypeMember>,
    b: TypeId,
    others: Seq<TypeMember>,
)
    requires
        graph.data_of(a) == (TypeData::Object { members: first }),
        members_in(graph.data_of(b)) == Some(others),
        first@.len() > 0,
        others.len() > 0,
        index_value_type(graph, a, first@) is None,
        all_paired(graph, a, properties(first@), b, others),
        forall|i: int|
            0 <= i < properties(first@).len() ==> {
                let pair = property_pair(graph, a, #[trigger] properties(first@)[i], b, others)->0;
                same_type(graph, pair.0, pair.1) || base_of_literal(graph, pair.0, pair.1)
            },
    ensures
        only_property_widening(graph, a, seq![b]) <==> exists|i: int|
            0 <= i < properties(first@).len() && ({
                let pair = property_pair(graph, a, #[trigger] properties(first@)[i], b, others)->0;
                base_of_literal(graph, pair.0, pair.1)
            }),
{
    let wanted = properties(first@);
    let pairs = property_pairs(graph, a, wanted, b, others);
    let pair = (a, b);
    law_literals_in_objects(graph, a, b, first);
    assert forall|i: int| 0 <= i < pairs.len() implies same_type(
        graph,
        (#[trigger] pairs[i]).0,
        pairs[i].1,
    ) || base_of_literal(graph, pairs[i].0, pairs[i].1) by {
        assert(property_pair(graph, a, wanted[i], b, others) is Some);
    }
    lemma_nothing_open(graph, pairs);
    assert(property_widening(graph)(pair) == property_step(graph, pair));
    crate::laws::lemma_leaf(
        property_widening(graph),
        pair,
        some_literal_widened(graph, pairs),
    );
    assert(seq![b][0] == b);
    if some_literal_widened(graph, pairs) {
        let i = choose|i: int|
            0 <= i < pairs.len() && base_of_literal(graph, (#[trigger] pairs[i]).0, pairs[i].1);
        assert(property_pair(graph, a, wanted[i], b, others)->0 == pairs[i]);
    }
    if exists|i: int|
        0 <= i < wanted.len() && ({
            let pair = property_pair(graph, a, #[trigger] wanted[i], b, others)->0;
            base_of_literal(graph, pair.0, pair.1)
        }) {
        let i = choose|i: int|
            0 <= i < wanted.len() && ({
                let pair = property_pair(graph, a, #[trigger] wanted[i], b, others)->0;
                base_of_literal(graph, pair.0, pair.1)
            });
        assert(base_of_literal(graph, pairs[i].0, pairs[i].1));
    }
}

/// The same pairs, with what type parameters stand for in the second place.
pub open spec fn with_resolved(graph: &TypeGraph, pairs: Seq<Pair>) -> Seq<Pair> {
    Seq::new(pairs.len(), |i: int| (pairs[i].0, generic_resolved(graph, pairs[i].1)))
}

/// What pairs of parts come to where the annotation is compared as a whole: all of
/// them have yet to be compared.
pub open spec fn to_be_compared(graph: &TypeGraph, pairs: Seq<Pair>) -> Step {
    Step::Checked { widened: false, next: with_resolved(graph, pairs) }
}

proof fn lemma_zip_complete(
    graph: &TypeGraph,
    a: TypeId,
    first: Seq<TypeRef>,
    b: TypeId,
    second: Seq<TypeRef>,
    count: nat,
)
    requires
        first.len() == second.len(),
        count <= first.len(),
    ensures
        ({
            let zipped = zip_pairing(graph, a, first, b, second, count);
            &&& zipped.complete <==> forall|i: int|
                0 <= i < count ==> graph.resolved(a, #[trigger] first[i]) is Some
                    && graph.resolved(b, second[i]) is Some
            &&& zipped.complete ==> zipped.pairs == with_resolved(
                graph,
                places(graph, a, first, b, second).take(count as int),
            )
        }),
    decreases count,
{
    let all = places(graph, a, first, b, second);
    if count > 0 {
        lemma_zip_complete(graph, a, first, b, second, (count - 1) as nat);
        let zipped = zip_pairing(graph, a, first, b, second, count);
        if zipped.complete {
            assert forall|i: int| 0 <= i < count implies graph.resolved(a, #[trigger] first[i])
                is Some && graph.resolved(b, second[i]) is Some by {
                if i == count - 1 {
                }
            }
            assert(zipped.pairs =~= with_resolved(graph, all.take(count as int)));
        }
    } else {
        assert(zip_pairing(graph, a, first, b, second, 0).pairs =~= with_resolved(
            graph,
            all.take(0),
        ));
    }
}

/// Tuples, and the type arguments of instances of the same type, are compared
/// place by place: they have to be equally many, and at least one.
pub proof fn law_lists_are_compared_place_by_place(graph: &TypeGraph, a: TypeId, b: TypeId)
    requires
        !same_type(graph, a, b),
    ensures
        match (graph.data_of(a), graph.data_of(b)) {
            (
                TypeData::Tuple { elements: first },
                TypeData::Tuple { elements: second },
            ) => widening_step(graph, (a, b)) == if first@.len() > 0 && both_known(
                graph,
                a,
                first@,
                b,
                second@,
            ) {
                to_be_compared(graph, places(graph, a, first@, b, second@))
            } else {
                Step::Mismatch
            },
            (
                TypeData::InstanceOf { ty: x, type_parameters: first },
                TypeData::InstanceOf { ty: y, type_parameters: second },
            ) => widening_step(graph, (a, b)) == if graph.resolved(a, x) is Some && graph.resolved(
                b,
                y,
            ) is Some && same_type(graph, graph.resolved(a, x)->0, graph.resolved(b, y)->0)
                && first@.len() > 0 && both_known(graph, a, first@, b, second@) {
                to_be_compared(graph, places(graph, a, first@, b, second@))
            } else {
                Step::Mismatch
            },
            _ => true,
        },
{
    match (graph.data_of(a), graph.data_of(b)) {
        (TypeData::Tuple { elements: first }, TypeData::Tuple { elements: second }) => {
            if first@.len() == second@.len() {
                lemma_zip_complete(graph, a, first@, b, second@, first@.len());
                let all = places(graph, a, first@, b, second@);
                assert(all.take(first@.len() as int) =~= all);
            }
        },
        (
            TypeData::InstanceOf { ty: x, type_parameters: first },
            TypeData::InstanceOf { ty: y, type_parameters: second },
        ) => {
            if first@.len() == second@.len() {
                lemma_zip_complete(graph, a, first@, b, second@, first@.len());
                let all = places(graph, a, first@, b, second@);
                assert(all.take(first@.len() as int) =~= all);
            }
        },
        _ => {},
    }
}

proof fn lemma_named_pairing(
    graph: &TypeGraph,
    a: TypeId,
    members: Seq<TypeMember>,
    b: TypeId,
    others: Seq<TypeMember>,
    count: nat,
)
    requires
        count <= members.len(),
    ensures
        ({
            let found = named_pairing(graph, a, members, b, others, count);
            let wanted = properties(members.take(count as int));
            &&& found.complete == all_paired(graph, a, wanted, b, others)
            &&& found.complete ==> found.pairs == with_resolved(
                graph,
                property_pairs(graph, a, wanted, b, others),
            )
        }),
    decreases count,
{
    if count == 0 {
        reveal(Seq::filter);
        assert(members.take(0).len() == 0);
        assert(properties(members.take(0)).len() == 0);
        assert(with_resolved(
            graph,
            property_pairs(graph, a, properties(members.take(0)), b, others),
        ) =~= Seq::<Pair>::empty());
    } else {
        let last = members[count - 1];
        let before = properties(members.take(count - 1));
        lemma_named_pairing(graph, a, members, b, others, (count - 1) as nat);
        lemma_properties_push(members, count);
        if is_property(last) {
            lemma_all_paired_push(graph, a, before, last, b, others);
            let pairs = property_pairs(graph, a, before, b, others);
            if let Some(pair) = property_pair(graph, a, last, b, others) {
                assert(with_resolved(graph, pairs.push(pair)) =~= with_resolved(
                    graph,
                    pairs,
                ).push((pair.0, generic_resolved(graph, pair.1))));
            }
        }
    }
}

proof fn lemma_index_pairing(
    graph: &TypeGraph,
    value: TypeId,
    b: TypeId,
    others: Seq<TypeMember>,
    count: nat,
)
    requires
        count <= others.len(),
    ensures
        ({
            let found = index_pairing(graph, value, b, others, count);
            &&& found.complete <==> forall|i: int|
                0 <= i < count ==> graph.resolved(b, (#[trigger] others[i]).ty) is Some
            &&& found.complete ==> found.pairs == with_resolved(
                graph,
                Seq::new(count, |i: int| (value, graph.resolved(b, others[i].ty)->0)),
            )
        }),
    decreases count,
{
    let found = index_pairing(graph, value, b, others, count);
    let all = Seq::new(count, |i: int| (value, graph.resolved(b, others[i].ty)->0));
    if count > 0 {
        lemma_index_pairing(graph, value, b, others, (count - 1) as nat);
        if found.complete {
            assert forall|i: int| 0 <= i < count implies graph.resolved(
                b,
                (#[trigger] others[i]).ty,
            ) is Some by {
                if i == count - 1 {
                }
            }
            assert(found.pairs =~= with_resolved(graph, all));
        }
    } else {
        assert(found.pairs =~= with_resolved(graph, all));
    }
}

/// Objects are compared property by property, each property with the member that
/// is found under its name. The type of an index signature is compared with every
/// member. Without members there is nothing to compare.
pub proof fn law_objects_are_compared_by_name(
    graph: &TypeGraph,
    a: TypeId,
    b: TypeId,
    first: Vec<TypeMember>,
    second: Vec<TypeMember>,
)
    requires
        !same_type(graph, a, b),
        graph.data_of(a) == (TypeData::Object { members: first }),
        graph.data_of(b) == (TypeData::Object { members: second }),
    ensures
        first@.len() == 0 || second@.len() == 0 ==> widening_step(graph, (a, b)) is Mismatch,
        first@.len() > 0 && second@.len() > 0 ==> match index_value_type(graph, a, first@) {
            Some(value) => widening_step(graph, (a, b)) == if forall|i: int|
                0 <= i < second@.len() ==> graph.resolved(b, (#[trigger] second@[i]).ty) is Some {
                to_be_compared(
                    graph,
                    Seq::new(
                        second@.len(),
                        |i: int| (value, graph.resolved(b, second@[i].ty)->0),
                    ),
                )
            } else {
                Step::Mismatch
            },
            None => widening_step(graph, (a, b)) == if all_paired(
                graph,
                a,
                properties(first@),
                b,
                second@,
            ) {
                to_be_compared(
                    graph,
                    property_pairs(graph, a, properties(first@), b, second@),
                )
            } else {
                Step::Mismatch
            },
        },
{
    if let Some(value) = index_value_type(graph, a, first@) {
        lemma_index_pairing(graph, value, b, second@, second@.len());
    }
    lemma_named_pairing(graph, a, first@, b, second@, first@.len());
    assert(first@.take(first@.len() as int) =~= first@);
}

/// An object type and an object literal are compared property by property. What
/// the members of the literal refer to is read from the annotation.
pub proof fn law_object_literals_are_compared_by_name(
    graph: &TypeGraph,
    a: TypeId,
    b: TypeId,
    first: Vec<TypeMember>,
    second: Vec<TypeMember>,
)
    requires
        graph.data_of(a) == (TypeData::Object { members: first }),
        graph.data_of(b) == TypeData::Literal(Literal::Object(second)),
    ensures
        widening_step(graph, (a, b)) == if first@.len() > 0 && second@.len() > 0 && all_paired(
            graph,
            a,
            properties(first@),
            a,
            second@,
        ) {
            to_be_compared(graph, property_pairs(graph, a, properties(first@), a, second@))
        } else {
            Step::Mismatch
        },
{
    if same_type(graph, a, b) {
        crate::laws::lemma_matching_kinds(graph, a, b);
    }
    lemma_named_pairing(graph, a, first@, a, second@, first@.len());
    assert(first@.take(first@.len() as int) =~= first@);
}

/// A literal is widened by its base type, and a type that matches is not wider.
/// What is neither, nor two objects, two tuples, two instances, or an object and
/// an object literal, cannot be compared.
pub proof fn law_what_cannot_be_compared(graph: &TypeGraph, a: TypeId, b: TypeId)
    ensures
        base_of_literal(graph, a, b) ==> widening_step(graph, (a, b)) == (Step::Checked {
            widened: true,
            next: Seq::<Pair>::empty(),
        }),
        same_type(graph, a, b) ==> widening_step(graph, (a, b)) == (Step::Checked {
            widened: false,
            next: Seq::<Pair>::empty(),
        }),
        !base_of_literal(graph, a, b) && !same_type(graph, a, b) && !(graph.data_of(a) is Object
            && members_in(graph.data_of(b)) is Some) && !(graph.data_of(a) is Tuple
            && graph.data_of(b) is Tuple) && !(graph.data_of(a) is InstanceOf && graph.data_of(b)
            is InstanceOf) ==> widening_step(graph, (a, b)) is Mismatch,
{
    lemma_base_does_not_match(graph, a, b);
}

/// Nothing is added after a gap.
proof fn lemma_gap_stays(
    graph: &TypeGraph,
    a: TypeId,
    members: Seq<TypeMember>,
    b: TypeId,
    others: Seq<TypeMember>,
    count: nat,
    gap: int,
)
    requires
        count <= members.len(),
        0 <= gap < properties(members).len(),
        properties(members.take(count as int)).len() > gap,
        property_pair(graph, a, properties(members)[gap], b, others) is None,
        forall|i: int|
            0 <= i < gap ==> property_pair(graph, a, #[trigger] properties(members)[i], b, others)
                is Some,
    ensures
        !named_pairing(graph, a, members, b, others, count).complete,
        named_pairing(graph, a, members, b, others, count).pairs == with_resolved(
            graph,
            property_pairs(graph, a, properties(members).take(gap), b, others),
        ),
    decreases count,
{
    let all = properties(members);
    if count == 0 {
        reveal(Seq::filter);
        assert(members.take(0).len() == 0);
    } else {
        let fewer = (count - 1) as nat;
        let last = members[count - 1];
        let wanted = properties(members.take(count as int));
        let before = properties(members.take(fewer as int));
        lemma_properties_push(members, count);
        lemma_properties_prefix(members, count);
        lemma_properties_prefix(members, fewer);
        lemma_named_pairing(graph, a, members, b, others, fewer);
        if before.len() > gap {
            lemma_gap_stays(graph, a, members, b, others, fewer, gap);
        } else {
            assert(before =~= all.take(gap));
            assert forall|i: int| 0 <= i < before.len() implies property_pair(
                graph,
                a,
                #[trigger] before[i],
                b,
                others,
            ) is Some by {
                assert(before[i] == all[i]);
            }
            assert(wanted[gap] == all[gap]);
            assert(wanted[gap] == last);
        }
    }
}

/// The properties among the first members are the first properties.
proof fn lemma_properties_prefix(members: Seq<TypeMember>, count: nat)
    requires
        count <= members.len(),
    ensures
        properties(members.take(count as int)).len() <= properties(members).len(),
        properties(members.take(count as int)) == properties(members).take(
            properties(members.take(count as int)).len() as int,
        ),
{
    let first = members.take(count as int);
    let rest = members.skip(count as int);
    let property = |member: TypeMember| is_property(member);
    Seq::filter_distributes_over_add(first, rest, property);
    assert(first + rest =~= members);
    assert(properties(members) == properties(first) + rest.filter(property));
    assert(properties(first) =~= properties(members).take(properties(first).len() as int));
}

/// Where a property has no counterpart, the properties before it are still paired,
/// and none after it.
pub proof fn law_pairs_before_a_gap(
    graph: &TypeGraph,
    a: TypeId,
    members: Seq<TypeMember>,
    b: TypeId,
    others: Seq<TypeMember>,
    gap: int,
)
    requires
        members.len() > 0,
        others.len() > 0,
        0 <= gap < properties(members).len(),
        property_pair(graph, a, properties(members)[gap], b, others) is None,
        forall|i: int|
            0 <= i < gap ==> property_pair(graph, a, #[trigger] properties(members)[i], b, others)
                is Some,
    ensures
        index_value_type(graph, a, members) is None ==> crate::widening::object_pairing(
            graph,
            a,
            members,
            b,
            others,
        ).pairs == with_resolved(
            graph,
            property_pairs(graph, a, properties(members).take(gap), b, others),
        ),
        a == b ==> crate::widening::object_literal_pairing(graph, a, members, others).pairs
            == with_resolved(
            graph,
            property_pairs(graph, a, properties(members).take(gap), a, others),
        ),
{
    assert(members.take(members.len() as int) =~= members);
    lemma_gap_stays(graph, a, members, b, others, members.len(), gap);
}

/// What two objects, or an object and an object literal, give to be compared.
pub proof fn law_pairs_of_objects(
    graph: &TypeGraph,
    a: TypeId,
    members: Seq<TypeMember>,
    b: TypeId,
    others: Seq<TypeMember>,
)
    requires
        members.len() > 0,
        others.len() > 0,
    ensures
        ({
            let found = crate::widening::object_pairing(graph, a, members, b, others);
            match index_value_type(graph, a, members) {
                Some(value) => (forall|i: int|
                    0 <= i < others.len() ==> graph.resolved(b, (#[trigger] others[i]).ty) is Some)
                    ==> found.complete && found.pairs == with_resolved(
                    graph,
                    Seq::new(
                        others.len(),
                        |i: int| (value, graph.resolved(b, others[i].ty)->0),
                    ),
                ),
                None => {
                    &&& found.complete == all_paired(graph, a, properties(members), b, others)
                    &&& found.complete ==> found.pairs == with_resolved(
                        graph,
                        property_pairs(graph, a, properties(members), b, others),
                    )
                },
            }
        }),
        ({
            let found = crate::widening::object_literal_pairing(graph, a, members, others);
            &&& found.complete == all_paired(graph, a, properties(members), a, others)
            &&& found.complete ==> found.pairs == with_resolved(
                graph,
                property_pairs(graph, a, properties(members), a, others),
            )
        }),
{
    assert(members.take(members.len() as int) =~= members);
    lemma_named_pairing(graph, a, members, b, others, members.len());
    lemma_named_pairing(graph, a, members, a, others, members.len());
    if let Some(value) = index_value_type(graph, a, members) {
        lemma_index_pairing(graph, value, b, others, others.len());
    }
}

} // verus!

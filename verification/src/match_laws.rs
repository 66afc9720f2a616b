//! When types match, in terms of what they are.
use crate::laws::{
    answered, concat, lemma_matching_kinds, lemma_mismatch_does_not_match, lemma_paired_parts,
    part_lists,
};
use crate::matching::{
    all_answered, bare_instance, counterpart, function_refs, lemma_nth_part_found,
    lemma_nth_part_of_own, look_of, matching_step, member_key, nth_part, occurrences, paired,
    paired_parts, parts_of, resolved_all, same_literal, same_type, type_pairs, Part, PartKey,
};
use crate::part_laws::{both_known, members_in, places};
use crate::traversal::{Pair, Step};
use crate::types::{
    FunctionParameter, Literal, ReturnType, TypeData, TypeGraph, TypeId, TypeMember,
    TypeMemberKind, TypeRef,
};
use vstd::prelude::*;

verus! {

/// A number for each keyword type, and none for other types.
pub open spec fn keyword(data: TypeData) -> Option<int> {
    match data {
        TypeData::AnyKeyword => Some(0),
        TypeData::NeverKeyword => Some(1),
        TypeData::ThisKeyword => Some(2),
        TypeData::UnknownKeyword => Some(3),
        TypeData::VoidKeyword => Some(4),
        TypeData::BigInt => Some(5),
        TypeData::Boolean => Some(6),
        TypeData::Null => Some(7),
        TypeData::Number => Some(8),
        TypeData::String => Some(9),
        TypeData::Undefined => Some(10),
        _ => None,
    }
}

/// A number for each kind of type. Type parameters and instances may stand for
/// each other.
pub open spec fn kind_of(data: TypeData) -> int {
    match data {
        TypeData::Generic { .. } => 11,
        TypeData::InstanceOf { .. } => 11,
        TypeData::Function { .. } => 12,
        TypeData::Intersection { .. } => 13,
        TypeData::Literal(_) => 14,
        TypeData::Object { .. } => 15,
        TypeData::Tuple { .. } => 16,
        TypeData::Union { .. } => 17,
        TypeData::Unknown => 18,
        TypeData::Other => 19,
        _ => keyword(data)->0,
    }
}

/// Two literals that are no objects are of the same kind and have the same content.
pub open spec fn same_content(a: Literal, b: Literal) -> bool {
    ||| a matches Literal::String(x) && (b matches Literal::String(y) && x@ == y@)
    ||| a matches Literal::Template(x) && (b matches Literal::Template(y) && x@ == y@)
    ||| a matches Literal::Number(x) && (b matches Literal::Number(y) && x@ == y@)
    ||| a matches Literal::BigInt(x) && (b matches Literal::BigInt(y) && x@ == y@)
    ||| a matches Literal::Boolean(x) && (b matches Literal::Boolean(y) && x == y)
    ||| a matches Literal::RegExp { pattern: x, flags: f } && (b matches Literal::RegExp {
        pattern: y,
        flags: g,
    } && x@ == y@ && f@ == g@)
}

/// A keyword type is matched by the same keyword type, and by nothing else.
pub proof fn law_keywords_match_themselves(graph: &TypeGraph, a: TypeId, b: TypeId)
    requires
        keyword(graph.data_of(a)) is Some,
    ensures
        same_type(graph, a, b) <==> keyword(graph.data_of(b)) == keyword(graph.data_of(a)),
{
    if keyword(graph.data_of(b)) == keyword(graph.data_of(a)) {
        crate::laws::law_types_of_the_same_parts_match(graph, a, b, Seq::empty());
    } else if same_type(graph, a, b) {
        lemma_matching_kinds(graph, a, b);
    }
}

/// A literal that is no object is matched by literals of the same content, and by
/// nothing else.
pub proof fn law_literals_match_by_content(graph: &TypeGraph, a: TypeId, b: TypeId, x: Literal)
    requires
        graph.data_of(a) == TypeData::Literal(x),
        !(x is Object),
    ensures
        same_type(graph, a, b) <==> (graph.data_of(b) matches TypeData::Literal(y)
            && same_content(x, y)),
        graph.data_of(b) matches TypeData::Literal(y) ==> same_literal(x, y) == same_content(x, y),
{
    if let TypeData::Literal(y) = graph.data_of(b) {
        if same_content(x, y) {
            crate::laws::law_types_of_the_same_parts_match(graph, a, b, Seq::empty());
        }
    }
    if same_type(graph, a, b) {
        lemma_matching_kinds(graph, a, b);
        assert(a == b ==> same_content(x, x));
    }
}

/// Object literals are not compared by their content alone.
pub proof fn law_object_literals_have_no_simple_content(a: Literal, b: Literal)
    requires
        a is Object || b is Object,
    ensures
        !same_literal(a, b),
{
}

/// A type parameter is matched by type parameters of the same name and by bare
/// instances of such, and by nothing else.
pub proof fn law_type_parameters_match_by_name(
    graph: &TypeGraph,
    a: TypeId,
    b: TypeId,
    name: String,
    constraint: Option<TypeRef>,
)
    requires
        graph.data_of(a) == (TypeData::Generic { name, constraint }),
    ensures
        same_type(graph, a, b) <==> match graph.data_of(b) {
            TypeData::Generic { name: other, .. } => other@ == name@,
            TypeData::InstanceOf { ty, type_parameters } => type_parameters@.len() == 0 && (
            graph.resolved(b, ty) matches Some(base) && (graph.data_of(
                base,
            ) matches TypeData::Generic { name: other, .. } && other@ == name@)),
            _ => false,
        },
{
    if same_type(graph, a, b) {
        lemma_matching_kinds(graph, a, b);
    }
    if crate::matching::same_simple_type(graph, a, b) {
        crate::laws::law_types_of_the_same_parts_match(graph, a, b, Seq::empty());
    }
}

/// Instances without type arguments match exactly when the types match that they
/// are instances of.
pub proof fn law_names_of_types_match_what_they_name(
    graph: &TypeGraph,
    a: TypeId,
    x: TypeRef,
    first: Vec<TypeRef>,
    b: TypeId,
    y: TypeRef,
    second: Vec<TypeRef>,
)
    requires
        graph.data_of(a) == (TypeData::InstanceOf { ty: x, type_parameters: first }),
        graph.data_of(b) == (TypeData::InstanceOf { ty: y, type_parameters: second }),
        first@.len() == 0,
        second@.len() == 0,
    ensures
        same_type(graph, a, b) == match (graph.resolved(a, x), graph.resolved(b, y)) {
            (Some(p), Some(q)) => same_type(graph, p, q),
            _ => false,
        },
{
    crate::laws::law_bare_instances_are_looked_through(graph, a, b);
}

/// A type that could not be inferred is matched by nothing.
pub proof fn law_uninferred_types_match_nothing(graph: &TypeGraph, a: TypeId, b: TypeId)
    requires
        graph.data_of(a) is Unknown,
    ensures
        !same_type(graph, a, b),
        !same_type(graph, b, a),
{
    if same_type(graph, a, b) {
        lemma_matching_kinds(graph, a, b);
    }
    if same_type(graph, b, a) {
        lemma_matching_kinds(graph, b, a);
    }
}

/// A type of which nothing is known but which it is matches only itself.
pub proof fn law_other_types_match_themselves_only(graph: &TypeGraph, a: TypeId, b: TypeId)
    requires
        graph.data_of(a) is Other,
    ensures
        same_type(graph, a, b) <==> a == b,
{
    if same_type(graph, a, b) {
        lemma_matching_kinds(graph, a, b);
    }
    if a == b {
        crate::laws::law_types_match_reflexive(graph, a);
    }
}

/// Types of different kinds do not match.
pub proof fn law_kinds_do_not_mix(graph: &TypeGraph, a: TypeId, b: TypeId)
    requires
        same_type(graph, a, b),
    ensures
        kind_of(graph.data_of(a)) == kind_of(graph.data_of(b)),
{
    if !(bare_instance(graph, a) && bare_instance(graph, b)) {
        lemma_matching_kinds(graph, a, b);
    }
}

proof fn lemma_one_part(from: Seq<Part>, to: Seq<Part>)
    requires
        from.len() == 1,
        to.len() == 1,
        from[0].key == to[0].key,
    ensures
        all_answered(to, from),
        paired_parts(from, to, 1) == if paired(from[0].types, to[0].types) {
            Some(type_pairs(from[0].types, to[0].types))
        } else {
            None
        },
{
    reveal_with_fuel(paired_parts, 2);
    reveal_with_fuel(nth_part, 2);
    reveal_with_fuel(occurrences, 2);
    assert(counterpart(from, 0, to) == Some(0nat));
    assert(counterpart(to, 0, from) == Some(0nat));
    let pairs = type_pairs(from[0].types, to[0].types);
    assert(Seq::<Pair>::empty() + pairs =~= pairs);
}

proof fn lemma_resolved_all(
    graph: &TypeGraph,
    a: TypeId,
    first: Seq<TypeRef>,
    b: TypeId,
    second: Seq<TypeRef>,
)
    ensures
        paired(resolved_all(graph, a, first), resolved_all(graph, b, second)) == both_known(
            graph,
            a,
            first,
            b,
            second,
        ),
        first.len() == second.len() ==> type_pairs(
            resolved_all(graph, a, first),
            resolved_all(graph, b, second),
        ) == places(graph, a, first, b, second),
{
    let x = resolved_all(graph, a, first);
    let y = resolved_all(graph, b, second);
    if paired(x, y) {
        assert forall|i: int| 0 <= i < first.len() implies graph.resolved(a, #[trigger] first[i])
            is Some && graph.resolved(b, second[i]) is Some by {
            assert(x[i] is Some);
        }
    }
    if both_known(graph, a, first, b, second) {
        assert forall|i: int| 0 <= i < x.len() implies (#[trigger] x[i]) is Some && y[i]
            is Some by {
            assert(graph.resolved(a, first[i]) is Some);
        }
    }
    if first.len() == second.len() {
        assert(type_pairs(x, y) =~= places(graph, a, first, b, second));
    }
}

/// What two lists of types lead to: each other's types, place by place.
pub open spec fn matched_in_order(
    graph: &TypeGraph,
    a: TypeId,
    first: Seq<TypeRef>,
    b: TypeId,
    second: Seq<TypeRef>,
) -> Step {
    if both_known(graph, a, first, b, second) {
        Step::Checked { widened: false, next: places(graph, a, first, b, second) }
    } else {
        Step::Mismatch
    }
}

proof fn lemma_lists_match_in_order(
    graph: &TypeGraph,
    a: TypeId,
    first: Seq<TypeRef>,
    b: TypeId,
    second: Seq<TypeRef>,
)
    requires
        a != b,
        !(bare_instance(graph, a) && bare_instance(graph, b)),
        !crate::matching::same_simple_type(graph, a, b),
        crate::matching::same_compound(graph, a, b),
        parts_of(graph, a) == seq![crate::matching::list_part(graph, a, first)],
        parts_of(graph, b) == seq![crate::matching::list_part(graph, b, second)],
    ensures
        matching_step(graph, (a, b)) == matched_in_order(graph, a, first, b, second),
{
    lemma_one_part(parts_of(graph, a), parts_of(graph, b));
    lemma_resolved_all(graph, a, first, b, second);
}

/// Different tuples, intersections, and instances with type arguments are matched
/// in order: element by element, type by type, and what they are instances of
/// before argument by argument.
pub proof fn law_lists_match_in_order(graph: &TypeGraph, a: TypeId, b: TypeId)
    requires
        a != b,
    ensures
        match (graph.data_of(a), graph.data_of(b)) {
            (
                TypeData::Tuple { elements: first },
                TypeData::Tuple { elements: second },
            ) => matching_step(graph, (a, b)) == matched_in_order(graph, a, first@, b, second@),
            (
                TypeData::Intersection { types: first },
                TypeData::Intersection { types: second },
            ) => matching_step(graph, (a, b)) == matched_in_order(graph, a, first@, b, second@),
            (
                TypeData::InstanceOf { ty: x, type_parameters: first },
                TypeData::InstanceOf { ty: y, type_parameters: second },
            ) => first@.len() > 0 || second@.len() > 0 ==> matching_step(graph, (a, b))
                == matched_in_order(graph, a, seq![x] + first@, b, seq![y] + second@),
            _ => true,
        },
{
    match (graph.data_of(a), graph.data_of(b)) {
        (TypeData::Tuple { elements: first }, TypeData::Tuple { elements: second }) => {
            lemma_lists_match_in_order(graph, a, first@, b, second@);
        },
        (TypeData::Intersection { types: first }, TypeData::Intersection { types: second }) => {
            lemma_lists_match_in_order(graph, a, first@, b, second@);
        },
        (
            TypeData::InstanceOf { ty: x, type_parameters: first },
            TypeData::InstanceOf { ty: y, type_parameters: second },
        ) => {
            if first@.len() > 0 || second@.len() > 0 {
                lemma_lists_match_in_order(graph, a, seq![x] + first@, b, seq![y] + second@);
            }
        },
        _ => {},
    }
}

/// What a function returns, apart from types: whether it is a type, a predicate or
/// an assertion, and of which parameter.
pub open spec fn same_form(a: ReturnType, b: ReturnType) -> bool {
    ||| a is Type && b is Type
    ||| a matches ReturnType::Predicate { parameter: x, .. } && (b matches ReturnType::Predicate {
        parameter: y,
        ..
    } && x == y)
    ||| a matches ReturnType::Asserts { parameter: x, ty: None } && (
    b matches ReturnType::Asserts { parameter: y, ty: None } && x == y)
    ||| a matches ReturnType::Asserts { parameter: x, ty: Some(_) } && (
    b matches ReturnType::Asserts { parameter: y, ty: Some(_) } && x == y)
}

/// Different functions match by their signatures: as many type parameters and
/// parameters, each optional or a rest parameter where the other is, the same form
/// of what is returned, and all types in order.
pub proof fn law_functions_match_by_signature(
    graph: &TypeGraph,
    a: TypeId,
    x: Vec<TypeRef>,
    p: Vec<FunctionParameter>,
    r: ReturnType,
    b: TypeId,
    y: Vec<TypeRef>,
    q: Vec<FunctionParameter>,
    s: ReturnType,
)
    requires
        a != b,
        graph.data_of(a) == (TypeData::Function {
            type_parameters: x,
            parameters: p,
            return_type: r,
        }),
        graph.data_of(b) == (TypeData::Function {
            type_parameters: y,
            parameters: q,
            return_type: s,
        }),
    ensures
        matching_step(graph, (a, b)) == if x@.len() == y@.len() && p@.len() == q@.len() && (
        forall|i: int|
            0 <= i < p@.len() ==> (#[trigger] p@[i]).is_optional == q@[i].is_optional
                && p@[i].is_rest == q@[i].is_rest) && same_form(r, s) {
            matched_in_order(
                graph,
                a,
                x@ + p@.map_values(|parameter: FunctionParameter| parameter.ty) + match r {
                    ReturnType::Type(ty) => seq![ty],
                    ReturnType::Predicate { ty, .. } => seq![ty],
                    ReturnType::Asserts { ty: Some(ty), .. } => seq![ty],
                    _ => seq![],
                },
                b,
                y@ + q@.map_values(|parameter: FunctionParameter| parameter.ty) + match s {
                    ReturnType::Type(ty) => seq![ty],
                    ReturnType::Predicate { ty, .. } => seq![ty],
                    ReturnType::Asserts { ty: Some(ty), .. } => seq![ty],
                    _ => seq![],
                },
            )
        } else {
            Step::Mismatch
        },
{
    let first = function_refs(x@, p@, r);
    let second = function_refs(y@, q@, s);
    assert(p@.map_values(|parameter: FunctionParameter| parameter.ty) =~= Seq::new(
        p@.len(),
        |i: int| p@[i].ty,
    ));
    assert(q@.map_values(|parameter: FunctionParameter| parameter.ty) =~= Seq::new(
        q@.len(),
        |i: int| q@[i].ty,
    ));
    if crate::matching::same_compound(graph, a, b) {
        lemma_lists_match_in_order(graph, a, first, b, second);
    }
}

/// Two members are of the same kind, and have the same name if they have one.
pub open spec fn same_kind_and_name(a: TypeMember, b: TypeMember) -> bool {
    ||| a.kind is CallSignature && b.kind is CallSignature
    ||| a.kind is Constructor && b.kind is Constructor
    ||| a.kind is IndexSignature && b.kind is IndexSignature
    ||| a.kind matches TypeMemberKind::Getter(x) && (b.kind matches TypeMemberKind::Getter(y)
        && x@ == y@)
    ||| a.kind matches TypeMemberKind::Named(x) && (b.kind matches TypeMemberKind::Named(y)
        && x@ == y@)
    ||| a.kind matches TypeMemberKind::NamedOptional(x) && (
    b.kind matches TypeMemberKind::NamedOptional(y) && x@ == y@)
    ||| a.kind matches TypeMemberKind::NamedStatic(x) && (
    b.kind matches TypeMemberKind::NamedStatic(y) && x@ == y@)
}

proof fn lemma_member_keys(a: TypeMember, b: TypeMember)
    ensures
        member_key(a.kind) == member_key(b.kind) <==> same_kind_and_name(a, b),
{
}

proof fn lemma_no_occurrences(parts: Seq<Part>, key: PartKey, count: nat)
    requires
        count <= parts.len(),
        forall|i: int| 0 <= i < count ==> (#[trigger] parts[i]).key != key,
    ensures
        occurrences(parts, key, count) == 0,
    decreases count,
{
    if count > 0 {
        lemma_no_occurrences(parts, key, (count - 1) as nat);
    }
}

proof fn lemma_same_occurrences(from: Seq<Part>, to: Seq<Part>, key: PartKey, count: nat)
    requires
        count <= from.len(),
        from.len() == to.len(),
        forall|i: int| 0 <= i < from.len() ==> (#[trigger] from[i]).key == to[i].key,
    ensures
        occurrences(from, key, count) == occurrences(to, key, count),
    decreases count,
{
    if count > 0 {
        lemma_same_occurrences(from, to, key, (count - 1) as nat);
        assert(from[count - 1].key == to[count - 1].key);
    }
}

/// The parts of two types correspond: each has one counterpart, at the given place.
spec fn correspond(from: Seq<Part>, to: Seq<Part>, order: Seq<int>) -> bool {
    &&& order.len() == from.len()
    &&& forall|i: int|
        0 <= i < order.len() ==> 0 <= #[trigger] order[i] < to.len() && counterpart(
            from,
            i as nat,
            to,
        ) == Some(order[i] as nat)
    &&& all_answered(to, from)
}

proof fn lemma_correspond_by_key(from: Seq<Part>, to: Seq<Part>, order: Seq<int>)
    requires
        order.len() == from.len(),
        forall|i: int|
            0 <= i < order.len() ==> 0 <= #[trigger] order[i] < to.len() && to[order[i]].key
                == from[i].key,
        forall|j: int| 0 <= j < to.len() ==> #[trigger] order.contains(j),
        forall|i: int, k: int|
            0 <= i < k < from.len() ==> (#[trigger] from[i]).key != (#[trigger] from[k]).key,
        forall|i: int, k: int|
            0 <= i < k < to.len() ==> (#[trigger] to[i]).key != (#[trigger] to[k]).key,
    ensures
        correspond(from, to, order),
{
    assert forall|i: int| 0 <= i < order.len() implies 0 <= #[trigger] order[i] < to.len()
        && counterpart(from, i as nat, to) == Some(order[i] as nat) by {
        let key = from[i].key;
        let at = order[i];
        lemma_no_occurrences(from, key, i as nat);
        lemma_no_occurrences(to, key, at as nat);
        lemma_nth_part_of_own(to, at as nat, to.len());
    }
    assert forall|j: nat| j < to.len() implies (#[trigger] counterpart(to, j, from)) is Some by {
        assert(order.contains(j as int));
        let i = choose|i: int| 0 <= i < order.len() && order[i] == j as int;
        let key = to[j as int].key;
        assert(to[order[i]].key == from[i].key);
        lemma_no_occurrences(to, key, j);
        lemma_no_occurrences(from, key, i as nat);
        lemma_nth_part_of_own(from, i as nat, from.len());
    }
}

proof fn lemma_correspond_in_order(from: Seq<Part>, to: Seq<Part>)
    requires
        from.len() == to.len(),
        forall|i: int| 0 <= i < from.len() ==> (#[trigger] from[i]).key == to[i].key,
    ensures
        correspond(from, to, Seq::new(from.len(), |i: int| i)),
{
    let order = Seq::new(from.len(), |i: int| i);
    assert forall|i: int| 0 <= i < order.len() implies 0 <= #[trigger] order[i] < to.len()
        && counterpart(from, i as nat, to) == Some(order[i] as nat) by {
        let key = from[i].key;
        lemma_same_occurrences(from, to, key, i as nat);
        lemma_nth_part_of_own(to, i as nat, to.len());
    }
    assert forall|j: nat| j < to.len() implies (#[trigger] counterpart(to, j, from)) is Some by {
        let key = to[j as int].key;
        assert(from[j as int].key == key);
        lemma_same_occurrences(from, to, key, j);
        lemma_nth_part_of_own(from, j, from.len());
    }
}

proof fn lemma_concat_singles(lists: Seq<Seq<Pair>>)
    requires
        forall|i: int| 0 <= i < lists.len() ==> (#[trigger] lists[i]).len() == 1,
    ensures
        concat(lists) == Seq::new(lists.len(), |i: int| lists[i][0]),
    decreases lists.len(),
{
    if lists.len() > 0 {
        let rest = lists.drop_last();
        assert forall|i: int| 0 <= i < rest.len() implies (#[trigger] rest[i]).len() == 1 by {
            assert(rest[i] == lists[i]);
        }
        lemma_concat_singles(rest);
        assert(lists[lists.len() - 1].len() == 1);
    }
    assert(concat(lists) =~= Seq::new(lists.len(), |i: int| lists[i][0]));
}

/// Parts of one type each that correspond give pairs of their types.
proof fn lemma_corresponding_pairs(from: Seq<Part>, to: Seq<Part>, order: Seq<int>)
    requires
        correspond(from, to, order),
        forall|i: int| 0 <= i < from.len() ==> (#[trigger] from[i]).types.len() == 1,
        forall|i: int| 0 <= i < to.len() ==> (#[trigger] to[i]).types.len() == 1,
    ensures
        paired_parts(from, to, from.len()) == if forall|i: int|
            0 <= i < from.len() ==> (#[trigger] from[i]).types[0] is Some
                && to[order[i]].types[0] is Some {
            Some(
                Seq::new(from.len(), |i: int| (from[i].types[0]->0, to[order[i]].types[0]->0)),
            )
        } else {
            None
        },
{
    lemma_paired_parts(from, to, from.len());
    let lists = part_lists(from, to, from.len());
    let pairs = Seq::new(from.len(), |i: int| (from[i].types[0]->0, to[order[i]].types[0]->0));
    assert forall|i: nat| i < from.len() implies #[trigger] answered(from, to, i) == (
    from[i as int].types[0] is Some && to[order[i as int]].types[0] is Some) by {
        assert(counterpart(from, i, to) == Some(order[i as int] as nat));
        let a = from[i as int].types;
        let b = to[order[i as int]].types;
        assert(a.len() == 1 && b.len() == 1);
        if paired(a, b) {
            assert(a[0] is Some);
        }
        if a[0] is Some && b[0] is Some {
            assert forall|k: int| 0 <= k < a.len() implies (#[trigger] a[k]) is Some && b[k]
                is Some by {}
        }
    }
    if forall|i: int|
        0 <= i < from.len() ==> (#[trigger] from[i]).types[0] is Some && to[order[i]].types[0]
            is Some {
        assert forall|i: nat| i < from.len() implies #[trigger] answered(from, to, i) by {
            assert(from[i as int].types[0] is Some);
        }
        assert forall|i: int| 0 <= i < lists.len() implies (#[trigger] lists[i]).len() == 1 by {
            assert(from[i].types.len() == 1);
        }
        lemma_concat_singles(lists);
        assert(concat(lists) =~= pairs) by {
            assert forall|i: int| 0 <= i < lists.len() implies #[trigger] lists[i][0]
                == pairs[i] by {
                assert(counterpart(from, i as nat, to) == Some(order[i] as nat));
                assert(from[i].types.len() == 1);
            }
        }
    } else {
        let i = choose|i: int|
            0 <= i < from.len() && !((#[trigger] from[i]).types[0] is Some
                && to[order[i]].types[0] is Some);
        assert(!answered(from, to, i as nat));
    }
}

/// Both types are object types, or both are object literals.
pub open spec fn both_objects(
    graph: &TypeGraph,
    a: TypeId,
    members: Seq<TypeMember>,
    b: TypeId,
    others: Seq<TypeMember>,
) -> bool {
    &&& members_in(graph.data_of(a)) == Some(members)
    &&& members_in(graph.data_of(b)) == Some(others)
    &&& graph.data_of(a) is Object <==> graph.data_of(b) is Object
}

/// What members lead to, each with the member at the given place of the other
/// object: their types, if all of them are known.
pub open spec fn matched_members(
    graph: &TypeGraph,
    a: TypeId,
    members: Seq<TypeMember>,
    b: TypeId,
    others: Seq<TypeMember>,
    order: Seq<int>,
) -> Step {
    if forall|i: int|
        0 <= i < members.len() ==> graph.resolved(a, (#[trigger] members[i]).ty) is Some
            && graph.resolved(b, others[order[i]].ty) is Some {
        Step::Checked {
            widened: false,
            next: Seq::new(
                members.len(),
                |i: int|
                    (
                        graph.resolved(a, members[i].ty)->0,
                        graph.resolved(b, others[order[i]].ty)->0,
                    ),
            ),
        }
    } else {
        Step::Mismatch
    }
}

proof fn lemma_objects_match(
    graph: &TypeGraph,
    a: TypeId,
    members: Seq<TypeMember>,
    b: TypeId,
    others: Seq<TypeMember>,
    order: Seq<int>,
)
    requires
        a != b,
        both_objects(graph, a, members, b, others),
        forall|i: int| 0 <= i < members.len() ==> !((#[trigger] members[i]).kind is IndexSignature),
        forall|i: int| 0 <= i < others.len() ==> !((#[trigger] others[i]).kind is IndexSignature),
        correspond(parts_of(graph, a), parts_of(graph, b), order),
    ensures
        matching_step(graph, (a, b)) == matched_members(graph, a, members, b, others, order),
{
    let from = parts_of(graph, a);
    let to = parts_of(graph, b);
    assert forall|i: int| 0 <= i < from.len() implies (#[trigger] from[i]).types.len() == 1
        && from[i].types[0] == graph.resolved(a, members[i].ty) by {
        assert(!(members[i].kind is IndexSignature));
    }
    assert forall|i: int| 0 <= i < to.len() implies (#[trigger] to[i]).types.len() == 1
        && to[i].types[0] == graph.resolved(b, others[i].ty) by {
        assert(!(others[i].kind is IndexSignature));
    }
    lemma_corresponding_pairs(from, to, order);
    let known = forall|i: int|
        0 <= i < members.len() ==> graph.resolved(a, (#[trigger] members[i]).ty) is Some
            && graph.resolved(b, others[order[i]].ty) is Some;
    if known {
        assert forall|i: int| 0 <= i < from.len() implies (#[trigger] from[i]).types[0] is Some
            && to[order[i]].types[0] is Some by {
            assert(graph.resolved(a, members[i].ty) is Some);
            assert(0 <= order[i] < to.len());
        }
        assert(Seq::new(from.len(), |i: int| (from[i].types[0]->0, to[order[i]].types[0]->0))
            =~= Seq::new(
            members.len(),
            |i: int|
                (graph.resolved(a, members[i].ty)->0, graph.resolved(b, others[order[i]].ty)->0),
        )) by {
            assert forall|i: int| 0 <= i < from.len() implies (
                from[i].types[0]->0,
                to[order[i]].types[0]->0,
            ) == (
                graph.resolved(a, members[i].ty)->0,
                graph.resolved(b, others[#[trigger] order[i]].ty)->0,
            ) by {
                assert(from[i].types.len() == 1);
            }
        }
    } else {
        let i = choose|i: int|
            0 <= i < members.len() && !(graph.resolved(a, (#[trigger] members[i]).ty) is Some
                && graph.resolved(b, others[order[i]].ty) is Some);
        assert(0 <= order[i] < to.len());
        assert(!(from[i].types[0] is Some && to[order[i]].types[0] is Some));
    }
}

/// Different objects with the same members, each of its own kind and name, lead to
/// the types of the members that bear the same name, in whatever order they stand.
pub proof fn law_objects_match_by_name(
    graph: &TypeGraph,
    a: TypeId,
    members: Seq<TypeMember>,
    b: TypeId,
    others: Seq<TypeMember>,
    order: Seq<int>,
)
    requires
        a != b,
        both_objects(graph, a, members, b, others),
        forall|i: int| 0 <= i < members.len() ==> !((#[trigger] members[i]).kind is IndexSignature),
        forall|i: int| 0 <= i < others.len() ==> !((#[trigger] others[i]).kind is IndexSignature),
        forall|i: int, k: int|
            0 <= i < k < members.len() ==> !same_kind_and_name(
                #[trigger] members[i],
                #[trigger] members[k],
            ),
        forall|i: int, k: int|
            0 <= i < k < others.len() ==> !same_kind_and_name(
                #[trigger] others[i],
                #[trigger] others[k],
            ),
        order.len() == members.len(),
        forall|i: int|
            0 <= i < order.len() ==> 0 <= #[trigger] order[i] < others.len() && same_kind_and_name(
                members[i],
                others[order[i]],
            ),
        forall|j: int| 0 <= j < others.len() ==> #[trigger] order.contains(j),
    ensures
        matching_step(graph, (a, b)) == matched_members(graph, a, members, b, others, order),
{
    let from = parts_of(graph, a);
    let to = parts_of(graph, b);
    assert forall|i: int| 0 <= i < order.len() implies 0 <= #[trigger] order[i] < to.len()
        && to[order[i]].key == from[i].key by {
        lemma_member_keys(members[i], others[order[i]]);
    }
    assert forall|i: int, k: int| 0 <= i < k < from.len() implies (#[trigger] from[i]).key != (
    #[trigger] from[k]).key by {
        lemma_member_keys(members[i], members[k]);
    }
    assert forall|i: int, k: int| 0 <= i < k < to.len() implies (#[trigger] to[i]).key != (
    #[trigger] to[k]).key by {
        lemma_member_keys(others[i], others[k]);
    }
    lemma_correspond_by_key(from, to, order);
    lemma_objects_match(graph, a, members, b, others, order);
}

/// Different objects with members of the same kinds and names in the same order,
/// overloads among them, lead to the types of these members place by place.
pub proof fn law_objects_match_in_order(
    graph: &TypeGraph,
    a: TypeId,
    members: Seq<TypeMember>,
    b: TypeId,
    others: Seq<TypeMember>,
)
    requires
        a != b,
        both_objects(graph, a, members, b, others),
        forall|i: int| 0 <= i < members.len() ==> !((#[trigger] members[i]).kind is IndexSignature),
        members.len() == others.len(),
        forall|i: int|
            0 <= i < members.len() ==> same_kind_and_name(#[trigger] members[i], others[i]),
    ensures
        matching_step(graph, (a, b)) == matched_members(
            graph,
            a,
            members,
            b,
            others,
            Seq::new(members.len(), |i: int| i),
        ),
{
    let from = parts_of(graph, a);
    let to = parts_of(graph, b);
    assert forall|i: int| 0 <= i < from.len() implies (#[trigger] from[i]).key == to[i].key by {
        lemma_member_keys(members[i], others[i]);
        assert(same_kind_and_name(members[i], others[i]));
    }
    assert forall|i: int| 0 <= i < others.len() implies !((#[trigger] others[i]).kind
        is IndexSignature) by {
        assert(same_kind_and_name(members[i], others[i]));
    }
    lemma_correspond_in_order(from, to);
    assert(Seq::new(from.len(), |i: int| i) =~= Seq::new(members.len(), |i: int| i));
    lemma_objects_match(graph, a, members, b, others, Seq::new(members.len(), |i: int| i));
}

/// What a member refers to: its type, and before it the type of the keys that an
/// index signature admits.
pub open spec fn refs_in(member: TypeMember) -> Seq<TypeRef> {
    match member.kind {
        TypeMemberKind::IndexSignature(key) => seq![key, member.ty],
        _ => seq![member.ty],
    }
}

proof fn lemma_concat_is_flatten(lists: Seq<Seq<Pair>>)
    ensures
        concat(lists) == lists.flatten_alt(),
    decreases lists.len(),
{
    if lists.len() > 0 {
        lemma_concat_is_flatten(lists.drop_last());
    }
}

/// Different objects with members of the same kinds and names in the same order,
/// whatever these kinds are, lead to all the types that their members refer to.
pub proof fn law_objects_match_by_all_that_members_refer_to(
    graph: &TypeGraph,
    a: TypeId,
    members: Seq<TypeMember>,
    b: TypeId,
    others: Seq<TypeMember>,
)
    requires
        a != b,
        both_objects(graph, a, members, b, others),
        members.len() == others.len(),
        forall|i: int|
            0 <= i < members.len() ==> same_kind_and_name(#[trigger] members[i], others[i]),
    ensures
        matching_step(graph, (a, b)) == if forall|i: int|
            0 <= i < members.len() ==> both_known(
                graph,
                a,
                refs_in(#[trigger] members[i]),
                b,
                refs_in(others[i]),
            ) {
            Step::Checked {
                widened: false,
                next: Seq::new(
                    members.len(),
                    |i: int| places(graph, a, refs_in(members[i]), b, refs_in(others[i])),
                ).flatten_alt(),
            }
        } else {
            Step::Mismatch
        },
{
    let from = parts_of(graph, a);
    let to = parts_of(graph, b);
    let lists = part_lists(from, to, from.len());
    let expected = Seq::new(
        members.len(),
        |i: int| places(graph, a, refs_in(members[i]), b, refs_in(others[i])),
    );
    assert forall|i: int| 0 <= i < from.len() implies (#[trigger] from[i]).key == to[i].key by {
        lemma_member_keys(members[i], others[i]);
        assert(same_kind_and_name(members[i], others[i]));
    }
    lemma_correspond_in_order(from, to);
    lemma_paired_parts(from, to, from.len());
    let order = Seq::new(from.len(), |i: int| i);
    assert forall|i: nat| i < from.len() implies #[trigger] answered(from, to, i) == both_known(
        graph,
        a,
        refs_in(members[i as int]),
        b,
        refs_in(others[i as int]),
    ) && lists[i as int] == expected[i as int] by {
        assert(order[i as int] == i);
        assert(counterpart(from, i, to) == Some(i));
        assert(same_kind_and_name(members[i as int], others[i as int]));
        lemma_resolved_all(graph, a, refs_in(members[i as int]), b, refs_in(others[i as int]));
    }
    if forall|i: int|
        0 <= i < members.len() ==> both_known(
            graph,
            a,
            refs_in(#[trigger] members[i]),
            b,
            refs_in(others[i]),
        ) {
        assert forall|i: nat| i < from.len() implies #[trigger] answered(from, to, i) by {
            assert(both_known(
                graph,
                a,
                refs_in(members[i as int]),
                b,
                refs_in(others[i as int]),
            ));
        }
        assert(lists =~= expected) by {
            assert forall|i: int| 0 <= i < lists.len() implies #[trigger] lists[i]
                == expected[i] by {
                assert(answered(from, to, i as nat));
            }
        }
        lemma_concat_is_flatten(lists);
    } else {
        let i = choose|i: int|
            0 <= i < members.len() && !both_known(
                graph,
                a,
                refs_in(#[trigger] members[i]),
                b,
                refs_in(others[i]),
            );
        assert(!answered(from, to, i as nat));
    }
}

/// Objects do not match if one has a member that the other lacks.
pub proof fn law_objects_need_the_same_members(
    graph: &TypeGraph,
    a: TypeId,
    members: Seq<TypeMember>,
    b: TypeId,
    others: Seq<TypeMember>,
    at: int,
)
    requires
        both_objects(graph, a, members, b, others),
        0 <= at < members.len(),
        forall|k: int|
            0 <= k < others.len() ==> !same_kind_and_name(members[at], #[trigger] others[k]),
    ensures
        !same_type(graph, a, b),
        !same_type(graph, b, a),
{
    let from = parts_of(graph, a);
    let to = parts_of(graph, b);
    if a == b {
        assert(same_kind_and_name(members[at], members[at]));
        assert(false);
    }
    assert(counterpart(from, at as nat, to) is None) by {
        if counterpart(from, at as nat, to) is Some {
            let key = from[at].key;
            lemma_nth_part_found(to, key, occurrences(from, key, at as nat), to.len());
            let found = counterpart(from, at as nat, to)->0 as int;
            lemma_member_keys(members[at], others[found]);
        }
    }
    assert(!all_answered(from, to));
    lemma_paired_parts(from, to, from.len());
    assert(!answered(from, to, at as nat));
    lemma_mismatch_does_not_match(graph, a, b);
    lemma_mismatch_does_not_match(graph, b, a);
}

/// Different objects with a single index signature lead to the types of its keys
/// and of its values.
pub proof fn law_index_signatures_match_by_keys_and_values(
    graph: &TypeGraph,
    a: TypeId,
    members: Seq<TypeMember>,
    x: TypeRef,
    b: TypeId,
    others: Seq<TypeMember>,
    y: TypeRef,
)
    requires
        a != b,
        both_objects(graph, a, members, b, others),
        members.len() == 1,
        members[0].kind == TypeMemberKind::IndexSignature(x),
        others.len() == 1,
        others[0].kind == TypeMemberKind::IndexSignature(y),
    ensures
        matching_step(graph, (a, b)) == matched_in_order(
            graph,
            a,
            seq![x, members[0].ty],
            b,
            seq![y, others[0].ty],
        ),
{
    lemma_one_part(parts_of(graph, a), parts_of(graph, b));
    lemma_resolved_all(graph, a, seq![x, members[0].ty], b, seq![y, others[0].ty]);
}

/// Two types are of the same kind, and have the same content if they are literals
/// that are no objects.
pub open spec fn look_the_same(a: TypeData, b: TypeData) -> bool {
    &&& kind_of(a) == kind_of(b)
    &&& a matches TypeData::Literal(x) ==> (b matches TypeData::Literal(y) ==> (x is Object
        && y is Object) || same_content(x, y))
}

/// Types look alike exactly when they are of the same kind, and have the same
/// content if they are literals that are no objects.
pub proof fn law_looks(a: TypeData, b: TypeData)
    ensures
        look_of(a) == look_of(b) <==> look_the_same(a, b),
{
}

/// What variants lead to, each with the variant at the given place of the other union.
pub open spec fn matched_variants(
    variants: Seq<TypeId>,
    others: Seq<TypeId>,
    order: Seq<int>,
) -> Step {
    Step::Checked {
        widened: false,
        next: Seq::new(variants.len(), |i: int| (variants[i], others[order[i]])),
    }
}

proof fn lemma_unions_match(
    graph: &TypeGraph,
    a: TypeId,
    variants: Vec<TypeId>,
    b: TypeId,
    others: Vec<TypeId>,
    order: Seq<int>,
)
    requires
        a != b,
        graph.data_of(a) == (TypeData::Union { variants }),
        graph.data_of(b) == (TypeData::Union { variants: others }),
        correspond(parts_of(graph, a), parts_of(graph, b), order),
    ensures
        matching_step(graph, (a, b)) == matched_variants(variants@, others@, order),
{
    let from = parts_of(graph, a);
    let to = parts_of(graph, b);
    lemma_corresponding_pairs(from, to, order);
    assert forall|i: int| 0 <= i < from.len() implies (#[trigger] from[i]).types[0] is Some
        && to[order[i]].types[0] is Some by {
        assert(0 <= order[i] < to.len());
    }
    assert(Seq::new(from.len(), |i: int| (from[i].types[0]->0, to[order[i]].types[0]->0))
        =~= Seq::new(variants@.len(), |i: int| (variants@[i], others@[order[i]]))) by {
        assert forall|i: int| 0 <= i < from.len() implies to[#[trigger] order[i]].types[0] == Some(
            others@[order[i]],
        ) by {}
    }
}

/// Different unions whose variants all look different are matched by the look of
/// their variants, in whatever order they stand.
pub proof fn law_unions_match_by_looks(
    graph: &TypeGraph,
    a: TypeId,
    variants: Vec<TypeId>,
    b: TypeId,
    others: Vec<TypeId>,
    order: Seq<int>,
)
    requires
        a != b,
        graph.data_of(a) == (TypeData::Union { variants }),
        graph.data_of(b) == (TypeData::Union { variants: others }),
        forall|i: int, k: int|
            0 <= i < k < variants@.len() ==> !look_the_same(
                graph.data_of(#[trigger] variants@[i]),
                graph.data_of(#[trigger] variants@[k]),
            ),
        forall|i: int, k: int|
            0 <= i < k < others@.len() ==> !look_the_same(
                graph.data_of(#[trigger] others@[i]),
                graph.data_of(#[trigger] others@[k]),
            ),
        order.len() == variants@.len(),
        forall|i: int|
            0 <= i < order.len() ==> 0 <= #[trigger] order[i] < others@.len() && look_the_same(
                graph.data_of(variants@[i]),
                graph.data_of(others@[order[i]]),
            ),
        forall|j: int| 0 <= j < others@.len() ==> #[trigger] order.contains(j),
    ensures
        matching_step(graph, (a, b)) == matched_variants(variants@, others@, order),
{
    let from = parts_of(graph, a);
    let to = parts_of(graph, b);
    assert forall|i: int| 0 <= i < order.len() implies 0 <= #[trigger] order[i] < to.len()
        && to[order[i]].key == from[i].key by {
        law_looks(graph.data_of(variants@[i]), graph.data_of(others@[order[i]]));
    }
    assert forall|i: int, k: int| 0 <= i < k < from.len() implies (#[trigger] from[i]).key != (
    #[trigger] from[k]).key by {
        law_looks(graph.data_of(variants@[i]), graph.data_of(variants@[k]));
    }
    assert forall|i: int, k: int| 0 <= i < k < to.len() implies (#[trigger] to[i]).key != (
    #[trigger] to[k]).key by {
        law_looks(graph.data_of(others@[i]), graph.data_of(others@[k]));
    }
    lemma_correspond_by_key(from, to, order);
    lemma_unions_match(graph, a, variants, b, others, order);
}

/// Different unions whose variants look the same place by place are matched in
/// that order.
pub proof fn law_unions_match_in_order(
    graph: &TypeGraph,
    a: TypeId,
    variants: Vec<TypeId>,
    b: TypeId,
    others: Vec<TypeId>,
)
    requires
        a != b,
        graph.data_of(a) == (TypeData::Union { variants }),
        graph.data_of(b) == (TypeData::Union { variants: others }),
        variants@.len() == others@.len(),
        forall|i: int|
            0 <= i < variants@.len() ==> look_the_same(
                graph.data_of(#[trigger] variants@[i]),
                graph.data_of(others@[i]),
            ),
    ensures
        matching_step(graph, (a, b)) == matched_variants(
            variants@,
            others@,
            Seq::new(variants@.len(), |i: int| i),
        ),
{
    let from = parts_of(graph, a);
    let to = parts_of(graph, b);
    assert forall|i: int| 0 <= i < from.len() implies (#[trigger] from[i]).key == to[i].key by {
        law_looks(graph.data_of(variants@[i]), graph.data_of(others@[i]));
        assert(look_the_same(graph.data_of(variants@[i]), graph.data_of(others@[i])));
    }
    lemma_correspond_in_order(from, to);
    assert(Seq::new(from.len(), |i: int| i) =~= Seq::new(variants@.len(), |i: int| i));
    lemma_unions_match(graph, a, variants, b, others, Seq::new(variants@.len(), |i: int| i));
}

/// Unions do not match if one has a variant like which none of the other looks.
pub proof fn law_unions_need_the_same_variants(
    graph: &TypeGraph,
    a: TypeId,
    variants: Vec<TypeId>,
    b: TypeId,
    others: Vec<TypeId>,
    at: int,
)
    requires
        graph.data_of(a) == (TypeData::Union { variants }),
        graph.data_of(b) == (TypeData::Union { variants: others }),
        0 <= at < variants@.len(),
        forall|k: int|
            0 <= k < others@.len() ==> !look_the_same(
                graph.data_of(variants@[at]),
                graph.data_of(#[trigger] others@[k]),
            ),
    ensures
        !same_type(graph, a, b),
        !same_type(graph, b, a),
{
    let from = parts_of(graph, a);
    let to = parts_of(graph, b);
    if a == b {
        law_looks(graph.data_of(variants@[at]), graph.data_of(variants@[at]));
        assert(others@[at] == variants@[at]);
        assert(false);
    }
    assert(counterpart(from, at as nat, to) is None) by {
        if counterpart(from, at as nat, to) is Some {
            let key = from[at].key;
            lemma_nth_part_found(to, key, occurrences(from, key, at as nat), to.len());
            let found = counterpart(from, at as nat, to)->0 as int;
            law_looks(graph.data_of(variants@[at]), graph.data_of(others@[found]));
        }
    }
    assert(!all_answered(from, to));
    lemma_paired_parts(from, to, from.len());
    assert(!answered(from, to, at as nat));
    lemma_mismatch_does_not_match(graph, a, b);
    lemma_mismatch_does_not_match(graph, b, a);
}

} // verus!

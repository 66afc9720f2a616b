//! What holds of the rule as a whole.
use crate::classify::{
    admits_undefined, any_contaminated, boolean_literal, boolean_returned, escape_hatch,
    intersection_with_type_param, promise_unwrapped, promised, return_type_of,
    single_literal_return,
};
use crate::describe::{
    clean_text, covered_variants, inferred_renderable, inferred_texts, joined, lemma_joined_push,
    literal_text, narrowed_renderable, needed_variants, showable_literal, variant_text,
    widening_variant, MAX_DESCRIPTION_LENGTH, SEPARATOR,
};
use crate::matching::{
    all_answered, bare_instance, base_of_literal, compound_parts, constraint_of, counterpart,
    generic_chain, generic_resolved, instance_base, lemma_nth_part_found, lemma_nth_part_of_own,
    lemma_same_compound, lemma_unwrapped_by, lemma_unwrapped_here, lemma_unwrapped_next, look_of,
    matching, matching_step, occurrences, paired, paired_parts, parts_of, same_simple_type,
    same_type, type_pairs, unwrapped_both, unwrapped_step, unwraps_to, Part, MAX_GENERIC_STEPS,
};
use crate::property::{only_property_widening, property_step, property_widening};
use crate::rule::{
    method_overload_implementation, misleading, node_reports, overload_implementation,
    reported_type, reports, wider_than_returned, DescriptionKind, RuleState,
};
use crate::returned::{
    any_const, belongs_to_block, block_returns, body_returns, const_asserted, directly_const,
    innermost, nested_function, return_argument, returned_type, types_of, wrapped_expression,
};
use crate::syntax::{FunctionBody, NodeData, NodeId, SyntaxTree};
use crate::text::{byte_len, lemma_chars_within_bytes, occurs, stands_at};
use crate::traversal::{
    agrees, finds_wider, lemma_tally_all_concat, lemma_tally_deeper, settled, tally, tally_all,
    tally_sum, Comparison, Pair, Step, Tally, MAX_TYPE_TRAVERSAL_ITERATIONS,
};
use crate::types::{Literal, TypeData, TypeGraph, TypeId, TypeMember, TypeRef};
use crate::union::{
    absorbing_primitive, absorbs_at, all_covered, alternatives, covered_by_some, covers,
    covers_some, matched_by_some, only_widened, primitive_type, some_needless, some_only_widened,
    some_unreached, union_wider, union_wider_than_returned, widened_by_some, wider_than,
    widens_some,
};
use crate::widening::{
    answers_to, compound_pairing, first_index_signature, first_named, list_pairing, member_named,
    named_pairing, nonunion_wider, object_pairing, property_name, widening, widening_step,
    zip_pairing,
};
use biome_rowan::TextRange;
use vstd::prelude::*;

verus! {

/// The same two types, the other way round.
spec fn turned(pair: Pair) -> Pair {
    (pair.1, pair.0)
}

spec fn all_turned(pairs: Seq<Pair>) -> Seq<Pair> {
    Seq::new(pairs.len(), |i: int| turned(pairs[i]))
}

proof fn lemma_paired_turned(a: Seq<Option<TypeId>>, b: Seq<Option<TypeId>>)
    requires
        paired(a, b),
    ensures
        paired(b, a),
        type_pairs(b, a) == all_turned(type_pairs(a, b)),
{
    assert forall|i: int| 0 <= i < b.len() implies (#[trigger] b[i]) is Some && a[i] is Some by {
        assert(a[i] is Some);
    }
    assert(type_pairs(b, a) =~= all_turned(type_pairs(a, b)));
}

/// Lists of pairs, one after the other.
pub open spec fn concat(lists: Seq<Seq<Pair>>) -> Seq<Pair>
    decreases lists.len(),
{
    if lists.len() == 0 {
        Seq::empty()
    } else {
        concat(lists.drop_last()) + lists.last()
    }
}

/// The tally of lists of pairs is that of any of them and that of the others.
proof fn lemma_concat_without(
    compare: Comparison,
    lists: Seq<Seq<Pair>>,
    depth: nat,
    at: int,
)
    requires
        0 <= at < lists.len(),
    ensures
        tally_all(compare, concat(lists), depth) == tally_sum(
            tally_all(compare, concat(lists.remove(at)), depth),
            tally_all(compare, lists[at], depth),
        ),
    decreases lists.len(),
{
    let rest = lists.drop_last();
    lemma_tally_all_concat(compare, concat(rest), lists.last(), depth);
    if at == lists.len() - 1 {
        assert(lists.remove(at) =~= rest);
    } else {
        let fewer = lists.remove(at);
        lemma_concat_without(compare, rest, depth, at);
        assert(fewer.drop_last() =~= rest.remove(at));
        assert(fewer.last() == lists.last());
        assert(rest[at] == lists[at]);
        lemma_tally_all_concat(compare, concat(fewer.drop_last()), fewer.last(), depth);
    }
}

/// The order of lists of pairs makes no difference to their tally.
proof fn lemma_tally_of_rearranged(
    compare: Comparison,
    lists: Seq<Seq<Pair>>,
    others: Seq<Seq<Pair>>,
    order: Seq<int>,
    depth: nat,
)
    requires
        order.len() == lists.len(),
        forall|i: int|
            0 <= i < order.len() ==> 0 <= #[trigger] order[i] < others.len() && others[order[i]]
                == lists[i],
        forall|i: int, k: int|
            0 <= i < k < order.len() ==> #[trigger] order[i] != #[trigger] order[k],
        forall|j: int| 0 <= j < others.len() ==> #[trigger] order.contains(j),
    ensures
        tally_all(compare, concat(lists), depth) == tally_all(compare, concat(others), depth),
    decreases lists.len(),
{
    if lists.len() == 0 {
        if others.len() > 0 {
            assert(order.contains(0));
        }
    } else {
        let last = lists.len() - 1;
        let at = order[last];
        let fewer = others.remove(at);
        let shifted = Seq::new(
            last as nat,
            |i: int| if order[i] < at {
                order[i]
            } else {
                order[i] - 1
            },
        );
        let rest = lists.drop_last();
        assert forall|i: int| 0 <= i < shifted.len() implies 0 <= #[trigger] shifted[i]
            < fewer.len() && fewer[shifted[i]] == rest[i] by {
            assert(order[i] != order[last]);
            assert(others[order[i]] == lists[i]);
        }
        assert forall|i: int, k: int| 0 <= i < k < shifted.len() implies #[trigger] shifted[i]
            != #[trigger] shifted[k] by {
            assert(order[i] != order[k]);
            assert(order[i] != order[last]);
            assert(order[k] != order[last]);
        }
        assert forall|j: int| 0 <= j < fewer.len() implies #[trigger] shifted.contains(j) by {
            let before = if j < at {
                j
            } else {
                j + 1
            };
            assert(order.contains(before));
            let i = choose|i: int| 0 <= i < order.len() && order[i] == before;
            assert(shifted[i] == j);
        }
        lemma_tally_of_rearranged(compare, rest, fewer, shifted, depth);
        lemma_concat_without(compare, others, depth, at);
        lemma_tally_all_concat(compare, concat(rest), lists.last(), depth);
    }
}

/// The counterpart of the counterpart of a part is the part itself.
pub(crate) proof fn lemma_counterpart_back(from: Seq<Part>, at: nat, to: Seq<Part>)
    requires
        at < from.len(),
        counterpart(from, at, to) is Some,
    ensures
        counterpart(from, at, to)->0 < to.len(),
        counterpart(to, counterpart(from, at, to)->0, from) == Some(at),
{
    let key = from[at as int].key;
    lemma_nth_part_found(to, key, occurrences(from, key, at), to.len());
    lemma_nth_part_of_own(from, at, from.len());
}

/// The part at this position and its counterpart give pairs.
pub open spec fn answered(from: Seq<Part>, to: Seq<Part>, at: nat) -> bool {
    match counterpart(from, at, to) {
        Some(found) => paired(from[at as int].types, to[found as int].types),
        None => false,
    }
}

/// The pairs that parts and their counterparts give, part by part.
pub open spec fn part_lists(from: Seq<Part>, to: Seq<Part>, count: nat) -> Seq<Seq<Pair>> {
    Seq::new(
        count,
        |i: int|
            type_pairs(from[i].types, to[counterpart(from, i as nat, to)->0 as int].types),
    )
}

pub(crate) proof fn lemma_paired_parts(from: Seq<Part>, to: Seq<Part>, count: nat)
    ensures
        paired_parts(from, to, count) is Some <==> forall|i: nat|
            i < count ==> #[trigger] answered(from, to, i),
        paired_parts(from, to, count) matches Some(pairs) ==> pairs == concat(
            part_lists(from, to, count),
        ),
    decreases count,
{
    if count > 0 {
        let last = (count - 1) as nat;
        lemma_paired_parts(from, to, last);
        let lists = part_lists(from, to, count);
        assert(lists.drop_last() =~= part_lists(from, to, last));
        if paired_parts(from, to, count) is Some {
            assert(answered(from, to, last));
            assert forall|i: nat| i < count implies #[trigger] answered(from, to, i) by {
                assert(i < last || i == last);
            }
        } else if forall|i: nat| i < count ==> #[trigger] answered(from, to, i) {
            assert(answered(from, to, last));
            assert(false);
        }
    }
}

proof fn lemma_concat_turned(lists: Seq<Seq<Pair>>)
    ensures
        concat(lists.map_values(|pairs: Seq<Pair>| all_turned(pairs))) == all_turned(
            concat(lists),
        ),
    decreases lists.len(),
{
    let turn = |pairs: Seq<Pair>| all_turned(pairs);
    let result = lists.map_values(turn);
    if lists.len() > 0 {
        lemma_concat_turned(lists.drop_last());
        assert(result.drop_last() =~= lists.drop_last().map_values(turn));
        assert(concat(result) =~= all_turned(concat(lists)));
    } else {
        assert(concat(result) =~= all_turned(concat(lists)));
    }
}

/// Parts give the same pairs whichever come first, but for their order.
proof fn lemma_paired_parts_turned(
    from: Seq<Part>,
    to: Seq<Part>,
    compare: Comparison,
    depth: nat,
)
    requires
        all_answered(to, from),
        paired_parts(from, to, from.len()) is Some,
    ensures
        all_answered(from, to),
        paired_parts(to, from, to.len()) is Some,
        tally_all(compare, paired_parts(to, from, to.len())->0, depth) == tally_all(
            compare,
            all_turned(paired_parts(from, to, from.len())->0),
            depth,
        ),
{
    lemma_paired_parts(from, to, from.len());
    lemma_paired_parts(to, from, to.len());
    let lists = part_lists(from, to, from.len());
    let turned_lists = lists.map_values(|pairs: Seq<Pair>| all_turned(pairs));
    let back = part_lists(to, from, to.len());
    let order = Seq::new(from.len(), |i: int| counterpart(from, i as nat, to)->0 as int);
    assert forall|i: nat| i < from.len() implies (#[trigger] counterpart(from, i, to)) is Some by {
        assert(answered(from, to, i));
    }
    assert forall|j: nat| j < to.len() implies #[trigger] answered(to, from, j) && order.contains(
        j as int,
    ) by {
        assert(counterpart(to, j, from) is Some);
        lemma_counterpart_back(to, j, from);
        let i = counterpart(to, j, from)->0;
        assert(answered(from, to, i));
        lemma_paired_turned(from[i as int].types, to[j as int].types);
        assert(order[i as int] == j);
    }
    assert forall|i: int| 0 <= i < order.len() implies 0 <= #[trigger] order[i] < back.len()
        && back[order[i]] == turned_lists[i] by {
        let at = i as nat;
        assert(answered(from, to, at));
        lemma_counterpart_back(from, at, to);
        lemma_paired_turned(from[i].types, to[order[i]].types);
    }
    assert forall|i: int, k: int| 0 <= i < k < order.len() implies #[trigger] order[i]
        != #[trigger] order[k] by {
        assert(counterpart(from, i as nat, to) is Some);
        assert(counterpart(from, k as nat, to) is Some);
        lemma_counterpart_back(from, i as nat, to);
        lemma_counterpart_back(from, k as nat, to);
    }
    assert forall|j: int| 0 <= j < back.len() implies #[trigger] order.contains(j) by {
        assert(answered(to, from, j as nat));
    }
    lemma_tally_of_rearranged(compare, turned_lists, back, order, depth);
    lemma_concat_turned(lists);
}

proof fn lemma_unwrapped_step_turned(
    graph: &TypeGraph,
    a: TypeId,
    b: TypeId,
    compare: Comparison,
    depth: nat,
)
    requires
        unwrapped_step(graph, a, b) is Checked,
    ensures
        unwrapped_step(graph, b, a) is Checked,
        tally_all(compare, unwrapped_step(graph, b, a)->next, depth) == tally_all(
            compare,
            all_turned(unwrapped_step(graph, a, b)->next),
            depth,
        ),
{
    assert(all_turned(Seq::<Pair>::empty()) =~= Seq::<Pair>::empty());
    if !(a == b || same_simple_type(graph, a, b)) {
        lemma_same_compound(graph, a, b);
        lemma_paired_parts_turned(parts_of(graph, a), parts_of(graph, b), compare, depth);
    }
}

proof fn lemma_unwraps_turned(graph: &TypeGraph, a: TypeId, b: TypeId, steps: nat)
    ensures
        unwraps_to(graph, b, a, steps) == match unwraps_to(graph, a, b, steps) {
            Some(pair) => Some(turned(pair)),
            None => None,
        },
    decreases steps,
{
    if let (Some(x), Some(y)) = (instance_base(graph, a), instance_base(graph, b)) {
        if steps > 0 {
            lemma_unwraps_turned(graph, x, y, (steps - 1) as nat);
        }
    }
}

proof fn lemma_unwrapped_turned(graph: &TypeGraph, a: TypeId, b: TypeId)
    requires
        unwrapped_both(graph, a, b) is Some,
    ensures
        unwrapped_both(graph, b, a) == Some(turned(unwrapped_both(graph, a, b)->0)),
{
    let steps = choose|steps: nat| (#[trigger] unwraps_to(graph, a, b, steps)) is Some;
    lemma_unwraps_turned(graph, a, b, steps);
    lemma_unwrapped_by(graph, b, a, steps);
}

proof fn lemma_matching_step_turned(
    graph: &TypeGraph,
    pair: Pair,
    compare: Comparison,
    depth: nat,
)
    requires
        matching_step(graph, pair) is Checked,
    ensures
        matching_step(graph, turned(pair)) is Checked,
        tally_all(compare, matching_step(graph, turned(pair))->next, depth) == tally_all(
            compare,
            all_turned(matching_step(graph, pair)->next),
            depth,
        ),
{
    lemma_unwrapped_turned(graph, pair.0, pair.1);
    let (x, y) = unwrapped_both(graph, pair.0, pair.1)->0;
    lemma_unwrapped_step_turned(graph, x, y, compare, depth);
}

proof fn lemma_matching_tally_turned(graph: &TypeGraph, pair: Pair, depth: nat)
    requires
        tally(matching(graph), pair, depth) is Some,
    ensures
        tally(matching(graph), turned(pair), depth) == tally(matching(graph), pair, depth),
    decreases depth, 0nat,
{
    let compare = matching(graph);
    let less = (depth - 1) as nat;
    assert(compare(pair) == matching_step(graph, pair));
    assert(compare(turned(pair)) == matching_step(graph, turned(pair)));
    if let Step::Checked { widened, next } = matching_step(graph, pair) {
        lemma_matching_step_turned(graph, pair, compare, less);
        lemma_matching_tally_all_turned(graph, next, less);
    }
}

proof fn lemma_matching_tally_all_turned(graph: &TypeGraph, pairs: Seq<Pair>, depth: nat)
    requires
        tally_all(matching(graph), pairs, depth) is Some,
    ensures
        tally_all(matching(graph), all_turned(pairs), depth) == tally_all(
            matching(graph),
            pairs,
            depth,
        ),
    decreases depth, pairs.len(),
{
    if pairs.len() > 0 {
        lemma_matching_tally_all_turned(graph, pairs.drop_last(), depth);
        lemma_matching_tally_turned(graph, pairs.last(), depth);
        assert(all_turned(pairs).drop_last() =~= all_turned(pairs.drop_last()));
        assert(all_turned(pairs).last() == turned(pairs.last()));
    }
}

/// A single pair agrees when its own tally stays within the budget.
pub(crate) proof fn lemma_agrees(compare: Comparison, pair: Pair)
    ensures
        agrees(compare, pair) == match tally(
            compare,
            pair,
            MAX_TYPE_TRAVERSAL_ITERATIONS as nat,
        ) {
            Some(found) => found.pairs <= MAX_TYPE_TRAVERSAL_ITERATIONS,
            None => false,
        },
{
    let budget = MAX_TYPE_TRAVERSAL_ITERATIONS as nat;
    assert(seq![pair].drop_last() =~= Seq::<Pair>::empty());
    assert(seq![pair].last() == pair);
    assert(tally_all(compare, Seq::<Pair>::empty(), budget) == Some(
        Tally { pairs: 0, widened: false },
    ));
}

/// Whether two types match does not depend on which of them comes first.
pub proof fn law_types_match_symmetric(graph: &TypeGraph, a: TypeId, b: TypeId)
    ensures
        same_type(graph, a, b) == same_type(graph, b, a),
{
    let budget = MAX_TYPE_TRAVERSAL_ITERATIONS as nat;
    lemma_agrees(matching(graph), (a, b));
    lemma_agrees(matching(graph), (b, a));
    if same_type(graph, a, b) {
        lemma_matching_tally_turned(graph, (a, b), budget);
    }
    if same_type(graph, b, a) {
        lemma_matching_tally_turned(graph, (b, a), budget);
    }
}

/// A type matches itself, unless it could not be inferred. A bare instance
/// stands for what it is an instance of: it matches itself if it leads to a type
/// that does.
pub proof fn law_types_match_reflexive(graph: &TypeGraph, ty: TypeId)
    ensures
        same_type(graph, ty, ty) == match unwrapped_both(graph, ty, ty) {
            Some((end, _)) => !(graph.data_of(end) is Unknown),
            None => false,
        },
        !bare_instance(graph, ty) ==> same_type(graph, ty, ty) == !(graph.data_of(ty) is Unknown),
{
    match unwrapped_both(graph, ty, ty) {
        Some((end, other)) => {
            let steps = if bare_instance(graph, ty) {
                choose|steps: nat| (#[trigger] unwraps_to(graph, ty, ty, steps)) is Some
            } else {
                0
            };
            lemma_unwraps_alike(graph, ty, steps);
            assert(end == other);
            if graph.data_of(end) is Unknown {
                lemma_mismatch_does_not_match(graph, ty, ty);
            } else {
                lemma_same_step_matches(graph, ty, ty);
            }
        },
        None => {
            lemma_mismatch_does_not_match(graph, ty, ty);
        },
    }
}

/// A chain leads to the same type as itself.
proof fn lemma_unwraps_alike(graph: &TypeGraph, ty: TypeId, steps: nat)
    ensures
        unwraps_to(graph, ty, ty, steps) matches Some(pair) ==> pair.0 == pair.1,
    decreases steps,
{
    if let Some(base) = instance_base(graph, ty) {
        if steps > 0 {
            lemma_unwraps_alike(graph, base, (steps - 1) as nat);
        }
    }
}

pub(crate) proof fn lemma_mismatch_does_not_match(graph: &TypeGraph, a: TypeId, b: TypeId)
    requires
        matching_step(graph, (a, b)) is Mismatch,
    ensures
        !same_type(graph, a, b),
{
    assert(matching(graph)((a, b)) == matching_step(graph, (a, b)));
    lemma_agrees(matching(graph), (a, b));
}

/// Types match if comparing them leads to no parts.
proof fn lemma_same_step_matches(graph: &TypeGraph, a: TypeId, b: TypeId)
    requires
        matching_step(graph, (a, b)) == (Step::Checked {
            widened: false,
            next: Seq::<Pair>::empty(),
        }),
    ensures
        same_type(graph, a, b),
{
    let compare = matching(graph);
    let less = (MAX_TYPE_TRAVERSAL_ITERATIONS - 1) as nat;
    assert(compare((a, b)) == matching_step(graph, (a, b)));
    lemma_agrees(compare, (a, b));
    assert(tally_all(compare, Seq::<Pair>::empty(), less) == Some(
        Tally { pairs: 0, widened: false },
    ));
}

/// Bare instances match exactly when the types match that they are instances of.
pub proof fn law_bare_instances_are_looked_through(graph: &TypeGraph, a: TypeId, b: TypeId)
    requires
        bare_instance(graph, a),
        bare_instance(graph, b),
    ensures
        same_type(graph, a, b) == match (instance_base(graph, a), instance_base(graph, b)) {
            (Some(x), Some(y)) => same_type(graph, x, y),
            _ => false,
        },
{
    let compare = matching(graph);
    lemma_unwrapped_next(graph, a, b);
    lemma_agrees(compare, (a, b));
    assert(compare((a, b)) == matching_step(graph, (a, b)));
    if let (Some(x), Some(y)) = (instance_base(graph, a), instance_base(graph, b)) {
        lemma_agrees(compare, (x, y));
        assert(compare((x, y)) == matching_step(graph, (x, y)));
    }
}

/// Types that match agree as they stand, and lead only to parts that match.
pub proof fn law_matching_types_have_matching_parts(graph: &TypeGraph, a: TypeId, b: TypeId)
    requires
        same_type(graph, a, b),
    ensures
        match matching_step(graph, (a, b)) {
            Step::Checked { widened: _, next } => forall|i: int|
                0 <= i < next.len() ==> same_type(graph, (#[trigger] next[i]).0, next[i].1),
            Step::Mismatch => false,
        },
{
    lemma_agrees(matching(graph), (a, b));
    assert(matching(graph)((a, b)) == matching_step(graph, (a, b)));
    if let Step::Checked { widened, next } = matching_step(graph, (a, b)) {
        assert forall|i: int| 0 <= i < next.len() implies same_type(
            graph,
            (#[trigger] next[i]).0,
            next[i].1,
        ) by {
            lemma_part_matches(graph, a, b, widened, next, i);
        }
    }
}

proof fn lemma_part_matches(
    graph: &TypeGraph,
    a: TypeId,
    b: TypeId,
    widened: bool,
    next: Seq<Pair>,
    at: int,
)
    requires
        same_type(graph, a, b),
        matching_step(graph, (a, b)) == (Step::Checked { widened, next }),
        0 <= at < next.len(),
    ensures
        same_type(graph, next[at].0, next[at].1),
{
    let compare = matching(graph);
    let budget = MAX_TYPE_TRAVERSAL_ITERATIONS as nat;
    let less = (budget - 1) as nat;
    lemma_agrees(compare, (a, b));
    assert(compare((a, b)) == matching_step(graph, (a, b)));
    lemma_tally_of_member(compare, next, less, at);
    lemma_tally_deeper(compare, next[at], less, budget);
    lemma_agrees(compare, next[at]);
    assert(next[at] == (next[at].0, next[at].1));
}

/// Types that match look alike.
pub proof fn law_matching_types_look_alike(graph: &TypeGraph, a: TypeId, b: TypeId)
    requires
        same_type(graph, a, b),
    ensures
        look_of(graph.data_of(a)) == look_of(graph.data_of(b)),
{
    if !(bare_instance(graph, a) && bare_instance(graph, b)) {
        lemma_matching_kinds(graph, a, b);
    }
}

/// Comparing the types leads to no further types.
pub open spec fn agree_at_once(graph: &TypeGraph, pair: Pair) -> bool {
    matching_step(graph, pair) == (Step::Checked { widened: false, next: Seq::<Pair>::empty() })
}

proof fn lemma_tally_of_leaves(graph: &TypeGraph, pairs: Seq<Pair>, depth: nat)
    requires
        depth > 0,
        forall|i: int| 0 <= i < pairs.len() ==> agree_at_once(graph, #[trigger] pairs[i]),
    ensures
        tally_all(matching(graph), pairs, depth) == Some(
            Tally { pairs: pairs.len(), widened: false },
        ),
    decreases pairs.len(),
{
    if pairs.len() > 0 {
        let pair = pairs.last();
        let rest = pairs.drop_last();
        assert(agree_at_once(graph, pairs[pairs.len() - 1]));
        assert forall|i: int| 0 <= i < rest.len() implies agree_at_once(
            graph,
            #[trigger] rest[i],
        ) by {
            assert(rest[i] == pairs[i]);
        }
        lemma_tally_of_leaves(graph, rest, depth);
        assert(matching(graph)(pair) == matching_step(graph, pair));
        assert(tally_all(matching(graph), Seq::<Pair>::empty(), (depth - 1) as nat) == Some(
            Tally { pairs: 0, widened: false },
        ));
        assert(tally(matching(graph), pair, depth) == Some(Tally { pairs: 1, widened: false }));
    }
}

/// Two types match if they agree as they stand, the parts that they lead to
/// agree without leading to further ones, and there are fewer such parts than
/// are compared.
pub proof fn law_types_of_the_same_parts_match(
    graph: &TypeGraph,
    a: TypeId,
    b: TypeId,
    parts: Seq<Pair>,
)
    requires
        matching_step(graph, (a, b)) == (Step::Checked { widened: false, next: parts }),
        parts.len() < MAX_TYPE_TRAVERSAL_ITERATIONS,
        forall|i: int| 0 <= i < parts.len() ==> agree_at_once(graph, #[trigger] parts[i]),
    ensures
        same_type(graph, a, b),
{
    lemma_tally_of_leaves(graph, parts, (MAX_TYPE_TRAVERSAL_ITERATIONS - 1) as nat);
    lemma_agrees(matching(graph), (a, b));
    assert(matching(graph)((a, b)) == matching_step(graph, (a, b)));
}

/// A chain of constraints that is not longer than [`MAX_GENERIC_STEPS`] is
/// followed to its end.
pub proof fn law_constraints_followed_to_the_end(graph: &TypeGraph, path: Seq<TypeId>)
    requires
        0 < path.len() <= MAX_GENERIC_STEPS + 1,
        forall|i: int|
            0 <= i < path.len() - 1 ==> constraint_of(graph, #[trigger] path[i]) == Some(
                path[i + 1],
            ),
        constraint_of(graph, path.last()) is None,
    ensures
        generic_resolved(graph, path[0]) == path.last(),
{
    lemma_chain_end(graph, path, 0, MAX_GENERIC_STEPS as nat);
}

proof fn lemma_chain_end(graph: &TypeGraph, path: Seq<TypeId>, at: int, steps: nat)
    requires
        0 <= at < path.len(),
        path.len() - 1 - at <= steps,
        forall|i: int|
            0 <= i < path.len() - 1 ==> constraint_of(graph, #[trigger] path[i]) == Some(
                path[i + 1],
            ),
        constraint_of(graph, path.last()) is None,
    ensures
        generic_chain(graph, path[at], steps) == path.last(),
    decreases steps,
{
    if at < path.len() - 1 {
        assert(constraint_of(graph, path[at]) == Some(path[at + 1]));
        lemma_chain_end(graph, path, at + 1, (steps - 1) as nat);
    }
}

/// The tally of a list is that of any of its pairs and that of the others.
proof fn lemma_tally_without(compare: Comparison, pairs: Seq<Pair>, depth: nat, at: int)
    requires
        0 <= at < pairs.len(),
    ensures
        tally_all(compare, pairs, depth) == tally_sum(
            tally_all(compare, pairs.remove(at), depth),
            tally(compare, pairs[at], depth),
        ),
{
    let first = pairs.take(at);
    let second = pairs.skip(at + 1);
    let with = first.push(pairs[at]);
    assert(with.drop_last() =~= first);
    assert(pairs =~= with + second);
    assert(pairs.remove(at) =~= first + second);
    lemma_tally_all_concat(compare, with, second, depth);
    lemma_tally_all_concat(compare, first, second, depth);
}

proof fn lemma_tally_of_reordered(compare: Comparison, a: Seq<Pair>, b: Seq<Pair>, depth: nat)
    requires
        a.to_multiset() == b.to_multiset(),
    ensures
        tally_all(compare, a, depth) == tally_all(compare, b, depth),
    decreases b.len(),
{
    broadcast use vstd::seq_lib::group_to_multiset_ensures;

    assert(a.len() == a.to_multiset().len());
    assert(b.len() == b.to_multiset().len());
    if b.len() > 0 {
        let last = b.last();
        assert(b.contains(last));
        assert(a.to_multiset().count(last) > 0);
        assert(a.contains(last));
        let at = choose|at: int| 0 <= at < a.len() && a[at] == last;
        assert(b.remove(b.len() - 1) =~= b.drop_last());
        assert(a.remove(at).to_multiset() =~= b.drop_last().to_multiset());
        lemma_tally_of_reordered(compare, a.remove(at), b.drop_last(), depth);
        lemma_tally_without(compare, a, depth, at);
    }
}

/// The order in which pairs of types are compared makes no difference.
pub proof fn law_comparison_order(
    compare: Comparison,
    a: Seq<Pair>,
    b: Seq<Pair>,
    budget: nat,
    widened: bool,
)
    requires
        a.to_multiset() == b.to_multiset(),
    ensures
        settled(compare, a, budget, widened) == settled(compare, b, budget, widened),
{
    lemma_tally_of_reordered(compare, a, b, budget);
}

/// The tally of a list is at least that of any of its pairs.
pub(crate) proof fn lemma_tally_of_member(
    compare: Comparison,
    pairs: Seq<Pair>,
    depth: nat,
    at: int,
)
    requires
        0 <= at < pairs.len(),
        tally_all(compare, pairs, depth) is Some,
    ensures
        tally(compare, pairs[at], depth) is Some,
        tally(compare, pairs[at], depth)->0.pairs <= tally_all(compare, pairs, depth)->0.pairs,
    decreases pairs.len(),
{
    if at < pairs.len() - 1 {
        lemma_tally_of_member(compare, pairs.drop_last(), depth, at);
    }
}

/// Comparing a pair leads to another pair after this many steps.
pub open spec fn leads_to(compare: Comparison, from: Pair, to: Pair, steps: nat) -> bool
    decreases steps,
{
    if steps == 0 {
        from == to
    } else {
        match compare(from) {
            Step::Checked { widened: _, next } => exists|i: int|
                0 <= i < next.len() && leads_to(
                    compare,
                    #[trigger] next[i],
                    to,
                    (steps - 1) as nat,
                ),
            Step::Mismatch => false,
        }
    }
}

/// The tally of a pair counts every pair on the way to another pair.
proof fn lemma_tally_on_the_way(
    compare: Comparison,
    from: Pair,
    to: Pair,
    steps: nat,
    depth: nat,
)
    requires
        leads_to(compare, from, to, steps),
        tally(compare, from, depth) is Some,
    ensures
        steps < depth,
        tally(compare, to, (depth - steps) as nat) is Some,
        tally(compare, to, (depth - steps) as nat)->0.pairs + steps <= tally(
            compare,
            from,
            depth,
        )->0.pairs,
    decreases steps,
{
    if steps > 0 {
        if let Step::Checked { widened: _, next } = compare(from) {
            let less = (depth - 1) as nat;
            let at = choose|i: int|
                0 <= i < next.len() && leads_to(
                    compare,
                    #[trigger] next[i],
                    to,
                    (steps - 1) as nat,
                );
            lemma_tally_of_member(compare, next, less, at);
            lemma_tally_on_the_way(compare, next[at], to, (steps - 1) as nat, less);
            assert((less - (steps - 1) as nat) as nat == (depth - steps) as nat);
        }
    }
}

/// Comparing types that refer to themselves ends, and never finds the
/// annotation wider: a pair that leads to a pair that leads back to itself fails.
pub proof fn law_cyclic_comparison_fails(
    compare: Comparison,
    pair: Pair,
    knot: Pair,
    steps: nat,
    round: nat,
)
    requires
        leads_to(compare, pair, knot, steps),
        round > 0,
        leads_to(compare, knot, knot, round),
    ensures
        !finds_wider(compare, pair),
{
    let budget = MAX_TYPE_TRAVERSAL_ITERATIONS as nat;
    lemma_finds_wider(compare, pair);
    if tally(compare, pair, budget) is Some {
        lemma_tally_on_the_way(compare, pair, knot, steps, budget);
        let depth = (budget - steps) as nat;
        lemma_tally_on_the_way(compare, knot, knot, round, depth);
        lemma_tally_deeper(compare, knot, (depth - round) as nat, depth);
    }
}

/// A single pair is settled when its own tally stays within the budget.
pub(crate) proof fn lemma_finds_wider(compare: Comparison, pair: Pair)
    ensures
        finds_wider(compare, pair) == match tally(
            compare,
            pair,
            MAX_TYPE_TRAVERSAL_ITERATIONS as nat,
        ) {
            Some(found) => found.pairs <= MAX_TYPE_TRAVERSAL_ITERATIONS && found.widened,
            None => false,
        },
{
    let budget = MAX_TYPE_TRAVERSAL_ITERATIONS as nat;
    assert(seq![pair].drop_last() =~= Seq::<Pair>::empty());
    assert(seq![pair].last() == pair);
    assert(tally_all(compare, Seq::<Pair>::empty(), budget) == Some(
        Tally { pairs: 0, widened: false },
    ));
}

/// A pair that leads to no further pairs is settled by its own step.
pub(crate) proof fn lemma_leaf(compare: Comparison, pair: Pair, widened: bool)
    requires
        compare(pair) == (Step::Checked { widened, next: Seq::<Pair>::empty() }),
    ensures
        finds_wider(compare, pair) == widened,
{
    lemma_finds_wider(compare, pair);
    let less = (MAX_TYPE_TRAVERSAL_ITERATIONS - 1) as nat;
    assert(tally_all(compare, Seq::<Pair>::empty(), less) == Some(
        Tally { pairs: 0, widened: false },
    ));
}

pub(crate) proof fn lemma_mismatch(compare: Comparison, pair: Pair)
    requires
        compare(pair) is Mismatch,
    ensures
        !finds_wider(compare, pair),
{
    lemma_finds_wider(compare, pair);
}

/// A type that matches is not wider.
pub proof fn law_matching_types_are_not_wider(
    graph: &TypeGraph,
    annotated: TypeId,
    inferred: TypeId,
)
    requires
        same_type(graph, annotated, generic_resolved(graph, inferred)),
    ensures
        !nonunion_wider(graph, annotated, inferred),
{
    let pair = (annotated, generic_resolved(graph, inferred));
    lemma_base_does_not_match(graph, pair.0, pair.1);
    assert(widening(graph)(pair) == widening_step(graph, pair));
    lemma_leaf(widening(graph), pair, false);
}

/// Types that match are the same, or bare instances, or agree as they stand.
pub(crate) proof fn lemma_matching_kinds(graph: &TypeGraph, a: TypeId, b: TypeId)
    requires
        same_type(graph, a, b),
        !(bare_instance(graph, a) && bare_instance(graph, b)),
    ensures
        a == b && !(graph.data_of(a) is Unknown) || same_simple_type(graph, a, b)
            || compound_parts(graph, a, b) is Some,
{
    law_matching_types_have_matching_parts(graph, a, b);
    lemma_unwrapped_here(graph, a, b);
}

/// A literal does not match the primitive type it belongs to.
pub(crate) proof fn lemma_base_does_not_match(graph: &TypeGraph, base: TypeId, literal: TypeId)
    ensures
        !(base_of_literal(graph, base, literal) && same_type(graph, base, literal)),
{
    if base_of_literal(graph, base, literal) && same_type(graph, base, literal) {
        lemma_matching_kinds(graph, base, literal);
    }
}

/// The type is one that no comparison of parts starts from, nor is it the base
/// of literals.
spec fn inert(graph: &TypeGraph, ty: TypeId) -> bool {
    match graph.data_of(ty) {
        TypeData::String => false,
        TypeData::Number => false,
        TypeData::Boolean => false,
        TypeData::BigInt => false,
        TypeData::Object { .. } => false,
        TypeData::Tuple { .. } => false,
        TypeData::InstanceOf { ty: _, type_parameters } => type_parameters@.len() == 0,
        _ => true,
    }
}

proof fn lemma_inert_is_not_wider(graph: &TypeGraph, annotated: TypeId, inferred: TypeId)
    requires
        inert(graph, annotated),
    ensures
        !nonunion_wider(graph, annotated, inferred),
{
    let pair = (annotated, generic_resolved(graph, inferred));
    assert(widening(graph)(pair) == widening_step(graph, pair));
    assert(!base_of_literal(graph, pair.0, pair.1));
    if same_type(graph, pair.0, pair.1) {
        lemma_leaf(widening(graph), pair, false);
    } else {
        assert(!compound_pairing(graph, pair.0, pair.1).complete);
        lemma_mismatch(widening(graph), pair);
    }
}

/// What the parts of two types give, taken part by part, is found in the pairs
/// that they give together.
proof fn lemma_pair_of_part(from: Seq<Part>, to: Seq<Part>, count: nat, at: nat, k: int)
    requires
        at < count,
        paired_parts(from, to, count) is Some,
        0 <= k < part_lists(from, to, count)[at as int].len(),
    ensures
        paired_parts(from, to, count)->0.contains(part_lists(from, to, count)[at as int][k]),
    decreases count,
{
    let last = (count - 1) as nat;
    let pairs = paired_parts(from, to, count)->0;
    let before = paired_parts(from, to, last)->0;
    let pair = part_lists(from, to, count)[at as int][k];
    if at < last {
        lemma_pair_of_part(from, to, last, at, k);
        assert(part_lists(from, to, last)[at as int] == part_lists(from, to, count)[at as int]);
        let i = choose|i: int| 0 <= i < before.len() && before[i] == pair;
        assert(pairs[i] == pair);
    } else {
        assert(pairs[before.len() + k] == pair);
    }
}

/// Instances whose parts correspond have equally many type arguments.
proof fn lemma_corresponding_instances(graph: &TypeGraph, a: TypeId, b: TypeId)
    requires
        compound_parts(graph, a, b) is Some,
        graph.data_of(a) is InstanceOf,
    ensures
        bare_instance(graph, a) == bare_instance(graph, b),
{
    let from = parts_of(graph, a);
    let to = parts_of(graph, b);
    lemma_paired_parts(from, to, from.len());
    assert(answered(from, to, 0));
    lemma_counterpart_back(from, 0, to);
    assert(from[0].types.len() == to[0].types.len());
}

/// Where two chains of bare instances lead to types that agree, the second
/// leads to a type that is known.
proof fn lemma_unwraps_to_known(graph: &TypeGraph, a: TypeId, b: TypeId, steps: nat)
    requires
        unwraps_to(graph, a, b, steps) matches Some(pair) && unwrapped_step(graph, pair.0, pair.1)
            is Checked,
    ensures
        same_type(graph, b, b),
    decreases steps,
{
    law_types_match_reflexive(graph, b);
    if bare_instance(graph, b) {
        law_bare_instances_are_looked_through(graph, b, b);
        if bare_instance(graph, a) {
            if let (Some(x), Some(y)) = (instance_base(graph, a), instance_base(graph, b)) {
                lemma_unwraps_to_known(graph, x, y, (steps - 1) as nat);
            }
        } else if same_simple_type(graph, a, b) {
            law_types_match_reflexive(graph, instance_base(graph, b)->0);
        } else {
            lemma_corresponding_instances(graph, a, b);
        }
    }
}

/// What matches any type matches itself.
pub proof fn law_what_matches_matches_itself(graph: &TypeGraph, a: TypeId, b: TypeId)
    requires
        same_type(graph, a, b),
    ensures
        same_type(graph, a, a),
        same_type(graph, b, b),
{
    law_types_match_symmetric(graph, a, b);
    lemma_matched_matches_itself(graph, a, b);
    lemma_matched_matches_itself(graph, b, a);
}

proof fn lemma_matched_matches_itself(graph: &TypeGraph, a: TypeId, b: TypeId)
    requires
        same_type(graph, a, b),
    ensures
        same_type(graph, b, b),
{
    if matching_step(graph, (a, b)) is Mismatch {
        lemma_mismatch_does_not_match(graph, a, b);
    }
    if bare_instance(graph, a) && bare_instance(graph, b) {
        let steps = choose|steps: nat| (#[trigger] unwraps_to(graph, a, b, steps)) is Some;
        lemma_unwraps_to_known(graph, a, b, steps);
    } else {
        lemma_unwraps_to_known(graph, a, b, 0);
    }
}

/// What is covered matches itself.
proof fn lemma_covered_matches_itself(graph: &TypeGraph, annotated: TypeId, inferred: TypeId)
    requires
        covers(graph, annotated, inferred),
    ensures
        same_type(graph, inferred, inferred),
{
    law_types_match_reflexive(graph, inferred);
    if same_type(graph, annotated, inferred) {
        law_what_matches_matches_itself(graph, annotated, inferred);
    } else if !(graph.data_of(inferred) is Generic) {
        let pair = (annotated, inferred);
        assert(generic_resolved(graph, inferred) == inferred);
        assert(widening(graph)(pair) == widening_step(graph, pair));
        if widening_step(graph, pair) is Mismatch {
            lemma_mismatch(widening(graph), pair);
        }
    }
}

/// Of unions that match, every variant of one matches a variant of the other,
/// as long as it matches itself.
proof fn lemma_matching_variant(graph: &TypeGraph, a: TypeId, b: TypeId, at: int) -> (found: int)
    requires
        same_type(graph, a, b),
        graph.union_type(a),
        0 <= at < graph.variants_of(a).len(),
        a == b ==> same_type(graph, graph.variants_of(a)[at], graph.variants_of(a)[at]),
    ensures
        0 <= found < graph.variants_of(b).len(),
        same_type(graph, graph.variants_of(a)[at], graph.variants_of(b)[found]),
{
    if a == b {
        at
    } else {
        let from = parts_of(graph, a);
        let to = parts_of(graph, b);
        lemma_matching_kinds(graph, a, b);
        lemma_unwrapped_here(graph, a, b);
        let pairs = compound_parts(graph, a, b)->0;
        lemma_paired_parts(from, to, from.len());
        assert(answered(from, to, at as nat));
        lemma_counterpart_back(from, at as nat, to);
        let found = counterpart(from, at as nat, to)->0 as int;
        let pair = (graph.variants_of(a)[at], graph.variants_of(b)[found]);
        assert(part_lists(from, to, from.len())[at][0] == pair);
        lemma_pair_of_part(from, to, from.len(), at as nat, 0);
        let i = choose|i: int| 0 <= i < pairs.len() && pairs[i] == pair;
        lemma_part_matches(graph, a, b, false, pairs, i);
        found
    }
}

/// A union is matched only by unions.
proof fn lemma_matching_union(graph: &TypeGraph, a: TypeId, b: TypeId)
    requires
        same_type(graph, a, b),
        graph.union_type(a),
    ensures
        graph.union_type(b),
{
    lemma_matching_kinds(graph, a, b);
}

/// A union is not wider than a union that it matches.
proof fn lemma_matched_union_is_not_wider(graph: &TypeGraph, a: TypeId, b: TypeId)
    requires
        same_type(graph, a, b),
        graph.union_type(a),
        all_covered(graph, graph.variants_of(a), graph.variants_of(b)),
    ensures
        !some_needless(graph, graph.variants_of(a), graph.variants_of(b)),
        !some_only_widened(graph, graph.variants_of(a), graph.variants_of(b)),
{
    let variants = graph.variants_of(a);
    let others = graph.variants_of(b);
    lemma_matching_union(graph, a, b);
    law_types_match_symmetric(graph, a, b);
    assert forall|i: int| 0 <= i < others.len() implies same_type(
        graph,
        #[trigger] others[i],
        others[i],
    ) by {
        assert(covered_by_some(graph, variants, others[i]));
        let k = choose|k: int|
            0 <= k < variants.len() && covers(graph, #[trigger] variants[k], others[i]);
        lemma_covered_matches_itself(graph, variants[k], others[i]);
    }
    assert forall|i: int| 0 <= i < variants.len() implies covers_some(
        graph,
        #[trigger] variants[i],
        others,
    ) by {
        if a == b {
            assert(same_type(graph, others[i], others[i]));
        }
        let found = lemma_matching_variant(graph, a, b, i);
        assert(covers(graph, variants[i], others[found]));
    }
    assert forall|i: int| 0 <= i < others.len() implies !only_widened(
        graph,
        variants,
        #[trigger] others[i],
    ) by {
        let found = lemma_matching_variant(graph, b, a, i);
        law_types_match_symmetric(graph, others[i], variants[found]);
        assert(same_type(graph, variants[found], others[i]));
    }
}

/// What matches a type parameter is never wider than anything.
proof fn lemma_matching_a_generic_is_inert(graph: &TypeGraph, a: TypeId, b: TypeId)
    requires
        same_type(graph, a, b),
        graph.data_of(b) is Generic,
    ensures
        inert(graph, a),
        !graph.union_type(a),
{
    lemma_matching_kinds(graph, a, b);
}

/// An annotation that is wider than an inferred type does not match it: it is
/// strictly wider.
pub proof fn law_wider_is_strict(graph: &TypeGraph, annotated: TypeId, inferred: TypeId)
    requires
        wider_than(graph, annotated, inferred),
    ensures
        !same_type(graph, annotated, inferred),
        !same_type(graph, annotated, generic_resolved(graph, inferred)),
{
    let current = generic_resolved(graph, inferred);
    if same_type(graph, annotated, current) {
        lemma_wider_does_not_match(graph, annotated, current);
    }
    if same_type(graph, annotated, inferred) {
        if graph.data_of(inferred) is Generic {
            lemma_matching_a_generic_is_inert(graph, annotated, inferred);
            lemma_inert_is_not_wider_than(graph, annotated, current);
        } else {
            assert(current == inferred);
        }
    }
}

proof fn lemma_inert_is_not_wider_than(graph: &TypeGraph, annotated: TypeId, current: TypeId)
    requires
        inert(graph, annotated),
        !graph.union_type(annotated),
    ensures
        !nonunion_wider(graph, annotated, current),
        !widens_some(graph, annotated, graph.variants_of(current)),
{
    lemma_inert_is_not_wider(graph, annotated, current);
    assert forall|i: int| 0 <= i < graph.variants_of(current).len() implies !nonunion_wider(
        graph,
        annotated,
        #[trigger] graph.variants_of(current)[i],
    ) by {
        lemma_inert_is_not_wider(graph, annotated, graph.variants_of(current)[i]);
    }
}

proof fn lemma_wider_does_not_match(graph: &TypeGraph, annotated: TypeId, current: TypeId)
    requires
        same_type(graph, annotated, current),
    ensures
        graph.union_type(annotated) ==> !union_wider(graph, annotated, current),
        !graph.union_type(annotated) ==> !graph.union_type(current) && !nonunion_wider(
            graph,
            annotated,
            current,
        ),
{
    if graph.union_type(annotated) {
        lemma_matching_union(graph, annotated, current);
        if union_wider(graph, annotated, current) {
            lemma_matched_union_is_not_wider(graph, annotated, current);
        }
    } else {
        if graph.union_type(current) {
            lemma_matching_kinds(graph, annotated, current);
        }
        if graph.data_of(current) is Generic {
            lemma_matching_a_generic_is_inert(graph, annotated, current);
            lemma_inert_is_not_wider(graph, annotated, current);
        } else {
            law_matching_types_are_not_wider(graph, annotated, current);
        }
    }
}

/// No type is wider than itself, be it simple, compound or a union.
pub proof fn law_nothing_is_wider_than_itself(graph: &TypeGraph, ty: TypeId)
    ensures
        !nonunion_wider(graph, ty, ty),
        !wider_than(graph, ty, ty),
{
    law_types_match_reflexive(graph, ty);
    if graph.data_of(ty) is Generic {
        lemma_inert_is_not_wider(graph, ty, ty);
    } else if nonunion_wider(graph, ty, ty) {
        lemma_covered_matches_itself(graph, ty, ty);
        law_matching_types_are_not_wider(graph, ty, ty);
    }
    if wider_than(graph, ty, ty) && same_type(graph, ty, ty) {
        law_wider_is_strict(graph, ty, ty);
    }
}

/// Every member is a property, and no name occurs twice.
pub open spec fn distinct_properties(members: Seq<TypeMember>) -> bool {
    &&& forall|i: int|
        0 <= i < members.len() ==> property_name((#[trigger] members[i]).kind) is Some
    &&& forall|i: int, j: int|
        0 <= i < j < members.len() ==> property_name((#[trigger] members[i]).kind)
            != property_name((#[trigger] members[j]).kind)
}

/// All references that have a target lead to types with [`plain_objects`].
pub open spec fn plain_parts(
    graph: &TypeGraph,
    ty: TypeId,
    refs: Seq<TypeRef>,
    depth: nat,
) -> bool
    decreases depth, 1nat,
{
    forall|i: int|
        0 <= i < refs.len() ==> match graph.resolved(ty, #[trigger] refs[i]) {
            Some(part) => plain_objects(graph, part, depth),
            None => true,
        }
}

/// The types of members.
pub open spec fn types_of_members(members: Seq<TypeMember>) -> Seq<TypeRef> {
    Seq::new(members.len(), |i: int| members[i].ty)
}

/// The object types in a type, no more than `depth` levels down through
/// properties, elements and type arguments, have nothing but properties, and no
/// name twice.
pub open spec fn plain_objects(graph: &TypeGraph, ty: TypeId, depth: nat) -> bool
    decreases depth, 0nat,
{
    depth == 0 || match graph.data_of(ty) {
        TypeData::InstanceOf { ty: _, type_parameters } => plain_parts(
            graph,
            ty,
            type_parameters@,
            (depth - 1) as nat,
        ),
        TypeData::Object { members } => {
            &&& distinct_properties(members@)
            &&& plain_parts(graph, ty, types_of_members(members@), (depth - 1) as nat)
        },
        TypeData::Tuple { elements } => plain_parts(graph, ty, elements@, (depth - 1) as nat),
        _ => true,
    }
}

/// What is wider within a list is wider in one of its pairs.
pub(crate) proof fn lemma_tally_widened(
    compare: Comparison,
    pairs: Seq<Pair>,
    depth: nat,
) -> (at: int)
    requires
        tally_all(compare, pairs, depth) is Some,
        tally_all(compare, pairs, depth)->0.widened,
    ensures
        0 <= at < pairs.len(),
        tally(compare, pairs[at], depth) is Some,
        tally(compare, pairs[at], depth)->0.widened,
    decreases pairs.len(),
{
    if tally(compare, pairs.last(), depth)->0.widened {
        pairs.len() - 1
    } else {
        let at = lemma_tally_widened(compare, pairs.drop_last(), depth);
        assert(pairs.drop_last()[at] == pairs[at]);
        at
    }
}

/// The pair that two references in the same place give.
pub(crate) proof fn lemma_zip_pair(
    graph: &TypeGraph,
    annotated: TypeId,
    ann_refs: Seq<TypeRef>,
    inferred: TypeId,
    inf_refs: Seq<TypeRef>,
    count: nat,
    at: int,
)
    requires
        zip_pairing(graph, annotated, ann_refs, inferred, inf_refs, count).complete,
        0 <= at < count,
    ensures
        zip_pairing(graph, annotated, ann_refs, inferred, inf_refs, count).pairs.len() == count,
        graph.resolved(annotated, ann_refs[at]) is Some,
        graph.resolved(inferred, inf_refs[at]) is Some,
        zip_pairing(graph, annotated, ann_refs, inferred, inf_refs, count).pairs[at] == (
            graph.resolved(annotated, ann_refs[at])->0,
            generic_resolved(graph, graph.resolved(inferred, inf_refs[at])->0),
        ),
    decreases count,
{
    if count > 1 {
        let before = (count - 1) as nat;
        lemma_zip_pair(
            graph,
            annotated,
            ann_refs,
            inferred,
            inf_refs,
            before,
            if at < before {
                at
            } else {
                0
            },
        );
    } else {
        assert(zip_pairing(graph, annotated, ann_refs, inferred, inf_refs, 0).pairs.len() == 0);
    }
}

/// The pair that a property gives.
proof fn lemma_named_pair(
    graph: &TypeGraph,
    annotated: TypeId,
    ann_members: Seq<TypeMember>,
    inferred: TypeId,
    inf_members: Seq<TypeMember>,
    count: nat,
    at: int,
)
    requires
        named_pairing(graph, annotated, ann_members, inferred, inf_members, count).complete,
        count <= ann_members.len(),
        distinct_properties(ann_members),
        0 <= at < count,
    ensures
        named_pairing(graph, annotated, ann_members, inferred, inf_members, count).pairs.len()
            == count,
        ({
            let counterpart = member_named(inf_members, property_name(ann_members[at].kind)->0);
            &&& counterpart is Some
            &&& graph.resolved(annotated, ann_members[at].ty) is Some
            &&& graph.resolved(inferred, counterpart->0.ty) is Some
            &&& named_pairing(
                graph,
                annotated,
                ann_members,
                inferred,
                inf_members,
                count,
            ).pairs[at] == (
                graph.resolved(annotated, ann_members[at].ty)->0,
                generic_resolved(graph, graph.resolved(inferred, counterpart->0.ty)->0),
            )
        }),
    decreases count,
{
    assert(property_name(ann_members[count - 1].kind) is Some);
    if count > 1 {
        let before = (count - 1) as nat;
        lemma_named_pair(
            graph,
            annotated,
            ann_members,
            inferred,
            inf_members,
            before,
            if at < before {
                at
            } else {
                0
            },
        );
    } else {
        assert(named_pairing(
            graph,
            annotated,
            ann_members,
            inferred,
            inf_members,
            0,
        ).pairs.len() == 0);
    }
}

pub(crate) proof fn lemma_first_named(members: Seq<TypeMember>, name: Seq<char>, count: nat)
    requires
        count <= members.len(),
    ensures
        match first_named(members, name, count) {
            Some(found) => found < count && answers_to(members[found as int].kind, name),
            None => forall|i: int|
                0 <= i < count ==> !answers_to((#[trigger] members[i]).kind, name),
        },
    decreases count,
{
    if count > 0 {
        lemma_first_named(members, name, (count - 1) as nat);
    }
}

/// A property among properties with different names is found under its name.
proof fn lemma_own_name(members: Seq<TypeMember>, at: int)
    requires
        distinct_properties(members),
        0 <= at < members.len(),
    ensures
        member_named(members, property_name(members[at].kind)->0) == Some(members[at]),
{
    let name = property_name(members[at].kind)->0;
    lemma_first_named(members, name, members.len());
    assert(property_name(members[at].kind) is Some);
    assert(answers_to(members[at].kind, name));
    if let Some(found) = first_named(members, name, members.len()) {
        assert(property_name(members[found as int].kind) is Some);
        assert(property_name(members[found as int].kind) == property_name(members[at].kind));
    }
}

/// The property that is found under a name has that name.
proof fn lemma_counterpart(members: Seq<TypeMember>, name: Seq<char>) -> (at: int)
    requires
        distinct_properties(members),
        member_named(members, name) is Some,
    ensures
        0 <= at < members.len(),
        member_named(members, name) == Some(members[at]),
        property_name(members[at].kind) == Some(name),
{
    lemma_first_named(members, name, members.len());
    let at = first_named(members, name, members.len())->0 as int;
    assert(property_name(members[at].kind) is Some);
    at
}

proof fn lemma_no_index_signature(members: Seq<TypeMember>, count: nat)
    requires
        distinct_properties(members),
        count <= members.len(),
    ensures
        first_index_signature(members, count) is None,
    decreases count,
{
    if count > 0 {
        lemma_no_index_signature(members, (count - 1) as nat);
        assert(property_name(members[count - 1].kind) is Some);
    }
}

/// The pairs of two lists contain, the other way round, what a pair of the
/// lists in the other order came from.
proof fn lemma_list_one_way(
    graph: &TypeGraph,
    a: TypeId,
    a_refs: Seq<TypeRef>,
    b: TypeId,
    b_refs: Seq<TypeRef>,
    at: int,
) -> (parts: (TypeId, TypeId))
    requires
        list_pairing(graph, a, a_refs, b, b_refs).complete,
        list_pairing(graph, b, b_refs, a, a_refs).complete,
        0 <= at < list_pairing(graph, a, a_refs, b, b_refs).pairs.len(),
    ensures
        at < a_refs.len(),
        a_refs.len() == b_refs.len(),
        graph.resolved(a, a_refs[at]) == Some(parts.0),
        graph.resolved(b, b_refs[at]) == Some(parts.1),
        list_pairing(graph, a, a_refs, b, b_refs).pairs[at] == (
            parts.0,
            generic_resolved(graph, parts.1),
        ),
        at < list_pairing(graph, b, b_refs, a, a_refs).pairs.len(),
        list_pairing(graph, b, b_refs, a, a_refs).pairs[at] == (
            parts.1,
            generic_resolved(graph, parts.0),
        ),
{
    lemma_zip_pair(graph, a, a_refs, b, b_refs, a_refs.len(), 0);
    lemma_zip_pair(graph, a, a_refs, b, b_refs, a_refs.len(), at);
    lemma_zip_pair(graph, b, b_refs, a, a_refs, b_refs.len(), at);
    (graph.resolved(a, a_refs[at])->0, graph.resolved(b, b_refs[at])->0)
}

/// The pairs of two objects contain, the other way round, what a pair of the
/// objects in the other order came from.
proof fn lemma_object_one_way(
    graph: &TypeGraph,
    a: TypeId,
    a_members: Seq<TypeMember>,
    b: TypeId,
    b_members: Seq<TypeMember>,
    at: int,
) -> (found: (TypeId, TypeId, int))
    requires
        distinct_properties(a_members),
        distinct_properties(b_members),
        object_pairing(graph, a, a_members, b, b_members).complete,
        object_pairing(graph, b, b_members, a, a_members).complete,
        0 <= at < object_pairing(graph, a, a_members, b, b_members).pairs.len(),
    ensures
        at < a_members.len(),
        0 <= found.2 < b_members.len(),
        graph.resolved(a, a_members[at].ty) == Some(found.0),
        graph.resolved(b, b_members[found.2].ty) == Some(found.1),
        object_pairing(graph, a, a_members, b, b_members).pairs[at] == (
            found.0,
            generic_resolved(graph, found.1),
        ),
        found.2 < object_pairing(graph, b, b_members, a, a_members).pairs.len(),
        object_pairing(graph, b, b_members, a, a_members).pairs[found.2] == (
            found.1,
            generic_resolved(graph, found.0),
        ),
{
    lemma_no_index_signature(a_members, a_members.len());
    lemma_no_index_signature(b_members, b_members.len());
    lemma_named_pair(graph, a, a_members, b, b_members, a_members.len(), 0);
    lemma_named_pair(graph, a, a_members, b, b_members, a_members.len(), at);
    let name = property_name(a_members[at].kind)->0;
    let other = lemma_counterpart(b_members, name);
    lemma_own_name(a_members, at);
    lemma_named_pair(graph, b, b_members, a, a_members, b_members.len(), other);
    (
        graph.resolved(a, a_members[at].ty)->0,
        graph.resolved(b, b_members[other].ty)->0,
        other,
    )
}

/// A type parameter cannot be compared with a type that comparisons of parts
/// start from, nor with the base of literals.
proof fn lemma_generic_mismatch(graph: &TypeGraph, generic: TypeId, other: TypeId)
    requires
        graph.data_of(generic) is Generic,
        !inert(graph, other),
    ensures
        widening_step(graph, (generic, other)) is Mismatch,
{
    if same_type(graph, generic, other) {
        law_types_match_symmetric(graph, generic, other);
        lemma_matching_a_generic_is_inert(graph, other, generic);
    }
}

/// Where one comparison finds the annotation wider, the comparison the other
/// way round fails.
proof fn lemma_one_way(
    graph: &TypeGraph,
    a: TypeId,
    b: TypeId,
    depth: nat,
    back: nat,
)
    requires
        plain_objects(graph, a, depth),
        plain_objects(graph, b, depth),
        tally(widening(graph), (a, generic_resolved(graph, b)), depth) is Some,
        tally(widening(graph), (a, generic_resolved(graph, b)), depth)->0.widened,
    ensures
        tally(widening(graph), (b, generic_resolved(graph, a)), back) is None,
    decreases depth,
{
    let compare = widening(graph);
    let forth = (a, generic_resolved(graph, b));
    assert(compare(forth) == widening_step(graph, forth));
    assert(compare((b, a)) == widening_step(graph, (b, a)));
    let less = (depth - 1) as nat;
    assert(tally_all(compare, Seq::<Pair>::empty(), less) == Some(
        Tally { pairs: 0, widened: false },
    ));
    assert(!inert(graph, a));
    assert(generic_resolved(graph, a) == a);
    if graph.data_of(b) is Generic {
        lemma_generic_mismatch(graph, b, a);
    } else {
        assert(generic_resolved(graph, b) == b);
        law_types_match_symmetric(graph, a, b);
        if base_of_literal(graph, a, b) {
            lemma_base_does_not_match(graph, a, b);
        } else if back > 0 && compound_pairing(graph, b, a).complete {
            let parts = compound_pairing(graph, a, b);
            let others = compound_pairing(graph, b, a);
            let at = lemma_tally_widened(compare, parts.pairs, less);
            let (x, y, other) = lemma_compound_one_way(graph, a, b, depth, at);
            lemma_one_way(graph, x, y, less, (back - 1) as nat);
            if tally_all(compare, others.pairs, (back - 1) as nat) is Some {
                lemma_tally_of_member(compare, others.pairs, (back - 1) as nat, other);
            }
        }
    }
}

/// What a pair of parts came from, and where it stands when the types are
/// compared the other way round.
proof fn lemma_compound_one_way(
    graph: &TypeGraph,
    a: TypeId,
    b: TypeId,
    depth: nat,
    at: int,
) -> (found: (TypeId, TypeId, int))
    requires
        depth > 0,
        plain_objects(graph, a, depth),
        plain_objects(graph, b, depth),
        compound_pairing(graph, a, b).complete,
        compound_pairing(graph, b, a).complete,
        0 <= at < compound_pairing(graph, a, b).pairs.len(),
    ensures
        plain_objects(graph, found.0, (depth - 1) as nat),
        plain_objects(graph, found.1, (depth - 1) as nat),
        compound_pairing(graph, a, b).pairs[at] == (found.0, generic_resolved(graph, found.1)),
        0 <= found.2 < compound_pairing(graph, b, a).pairs.len(),
        compound_pairing(graph, b, a).pairs[found.2] == (
            found.1,
            generic_resolved(graph, found.0),
        ),
{
    match (graph.data_of(a), graph.data_of(b)) {
        (
            TypeData::InstanceOf { ty: _, type_parameters: p },
            TypeData::InstanceOf { ty: _, type_parameters: q },
        ) => {
            let (x, y) = lemma_list_one_way(graph, a, p@, b, q@, at);
            (x, y, at)
        },
        (TypeData::Tuple { elements: p }, TypeData::Tuple { elements: q }) => {
            let (x, y) = lemma_list_one_way(graph, a, p@, b, q@, at);
            (x, y, at)
        },
        (TypeData::Object { members: p }, TypeData::Object { members: q }) => {
            let (x, y, other) = lemma_object_one_way(graph, a, p@, b, q@, at);
            assert(types_of_members(p@)[at] == p@[at].ty);
            assert(types_of_members(q@)[other] == q@[other].ty);
            (x, y, other)
        },
        _ => (a, b, 0),
    }
}

/// Wider goes one way only: of two types in which objects have nothing but
/// properties, and no name twice, at most one is wider than the other, and then
/// they do not match.
pub proof fn law_wider_goes_one_way(graph: &TypeGraph, a: TypeId, b: TypeId)
    requires
        nonunion_wider(graph, a, b),
        plain_objects(graph, a, MAX_TYPE_TRAVERSAL_ITERATIONS as nat),
        plain_objects(graph, b, MAX_TYPE_TRAVERSAL_ITERATIONS as nat),
    ensures
        !nonunion_wider(graph, b, a),
        !same_type(graph, a, b),
{
    let budget = MAX_TYPE_TRAVERSAL_ITERATIONS as nat;
    lemma_finds_wider(widening(graph), (a, generic_resolved(graph, b)));
    lemma_finds_wider(widening(graph), (b, generic_resolved(graph, a)));
    lemma_one_way(graph, a, b, budget, budget);
    if same_type(graph, a, b) {
        if graph.data_of(b) is Generic {
            lemma_matching_a_generic_is_inert(graph, a, b);
            lemma_inert_is_not_wider(graph, a, b);
        } else {
            law_matching_types_are_not_wider(graph, a, b);
        }
    }
}

proof fn lemma_tally_of_literals(graph: &TypeGraph, pairs: Seq<Pair>, depth: nat)
    requires
        depth > 0,
        forall|i: int|
            0 <= i < pairs.len() ==> base_of_literal(graph, (#[trigger] pairs[i]).0, pairs[i].1)
                || same_type(graph, pairs[i].0, pairs[i].1),
    ensures
        tally_all(widening(graph), pairs, depth) is Some,
        tally_all(widening(graph), pairs, depth)->0.pairs == pairs.len(),
        tally_all(widening(graph), pairs, depth)->0.widened <==> exists|i: int|
            0 <= i < pairs.len() && base_of_literal(graph, (#[trigger] pairs[i]).0, pairs[i].1),
    decreases pairs.len(),
{
    if pairs.len() > 0 {
        let pair = pairs.last();
        let rest = pairs.drop_last();
        assert(pairs[pairs.len() - 1] == pair);
        assert forall|i: int| 0 <= i < rest.len() implies base_of_literal(
            graph,
            (#[trigger] rest[i]).0,
            rest[i].1,
        ) || same_type(graph, rest[i].0, rest[i].1) by {
            assert(rest[i] == pairs[i]);
        }
        lemma_tally_of_literals(graph, rest, depth);
        assert(widening(graph)(pair) == widening_step(graph, pair));
        assert(tally_all(widening(graph), Seq::<Pair>::empty(), (depth - 1) as nat) == Some(
            Tally { pairs: 0, widened: false },
        ));
        assert(tally(widening(graph), pair, depth) == Some(
            Tally { pairs: 1, widened: base_of_literal(graph, pair.0, pair.1) },
        ));
        if tally_all(widening(graph), rest, depth)->0.widened {
            let i = choose|i: int|
                0 <= i < rest.len() && base_of_literal(graph, (#[trigger] rest[i]).0, rest[i].1);
            assert(pairs[i] == rest[i]);
        }
        if exists|i: int|
            0 <= i < pairs.len() && base_of_literal(graph, (#[trigger] pairs[i]).0, pairs[i].1) {
            let i = choose|i: int|
                0 <= i < pairs.len() && base_of_literal(
                    graph,
                    (#[trigger] pairs[i]).0,
                    pairs[i].1,
                );
            if i < rest.len() {
                assert(rest[i] == pairs[i]);
            }
        }
    }
}

/// A compound type of which every part matches its counterpart, or is the base
/// of a literal there, is wider exactly when the latter happens, as long as
/// there are fewer parts than pairs that are compared.
pub proof fn law_wider_parts_make_a_type_wider(
    graph: &TypeGraph,
    annotated: TypeId,
    inferred: TypeId,
    parts: Seq<Pair>,
)
    requires
        widening_step(graph, (annotated, generic_resolved(graph, inferred))) == (Step::Checked {
            widened: false,
            next: parts,
        }),
        parts.len() < MAX_TYPE_TRAVERSAL_ITERATIONS,
        forall|i: int|
            0 <= i < parts.len() ==> base_of_literal(graph, (#[trigger] parts[i]).0, parts[i].1)
                || same_type(graph, parts[i].0, parts[i].1),
    ensures
        nonunion_wider(graph, annotated, inferred) <==> exists|i: int|
            0 <= i < parts.len() && base_of_literal(graph, (#[trigger] parts[i]).0, parts[i].1),
{
    let pair = (annotated, generic_resolved(graph, inferred));
    assert(widening(graph)(pair) == widening_step(graph, pair));
    lemma_finds_wider(widening(graph), pair);
    lemma_tally_of_literals(graph, parts, (MAX_TYPE_TRAVERSAL_ITERATIONS - 1) as nat);
}

/// A primitive type is wider than just its own literals, and than type
/// parameters that stand for one.
pub proof fn law_primitive_widens_its_literals(
    graph: &TypeGraph,
    primitive: TypeId,
    inferred: TypeId,
)
    requires
        primitive_type(graph, primitive),
    ensures
        nonunion_wider(graph, primitive, inferred) == base_of_literal(
            graph,
            primitive,
            generic_resolved(graph, inferred),
        ),
{
    let pair = (primitive, generic_resolved(graph, inferred));
    assert(widening(graph)(pair) == widening_step(graph, pair));
    if base_of_literal(graph, pair.0, pair.1) {
        lemma_leaf(widening(graph), pair, true);
    } else if same_type(graph, pair.0, pair.1) {
        lemma_leaf(widening(graph), pair, false);
    } else {
        assert(!compound_pairing(graph, pair.0, pair.1).complete);
        lemma_mismatch(widening(graph), pair);
    }
}

/// A union collapses to a primitive type only if that is one of its variants,
/// the only primitive one, and all other variants are literals of it.
pub proof fn law_collapse(graph: &TypeGraph, ty: TypeId, primitive: TypeId)
    requires
        absorbing_primitive(graph, ty) == Some(primitive),
    ensures
        primitive_type(graph, primitive),
        exists|index: int|
            #![trigger graph.variants_of(ty)[index]]
            {
                &&& 0 <= index < graph.variants_of(ty).len()
                &&& graph.variants_of(ty)[index] == primitive
                &&& forall|i: int|
                    0 <= i < graph.variants_of(ty).len() && i != index ==> base_of_literal(
                        graph,
                        primitive,
                        #[trigger] graph.variants_of(ty)[i],
                    )
            },
{
    let variants = graph.variants_of(ty);
    let index = choose|i: int| absorbs_at(graph, variants, i);
    assert(absorbs_at(graph, variants, index));
    assert(graph.variants_of(ty)[index] == primitive);
}

/// A union collapses to a primitive variant if all its other variants are
/// literals of it.
pub proof fn law_collapse_is_complete(graph: &TypeGraph, ty: TypeId, index: int)
    requires
        0 <= index < graph.variants_of(ty).len(),
        primitive_type(graph, graph.variants_of(ty)[index]),
        forall|i: int|
            0 <= i < graph.variants_of(ty).len() && i != index ==> base_of_literal(
                graph,
                graph.variants_of(ty)[index],
                #[trigger] graph.variants_of(ty)[i],
            ),
    ensures
        absorbing_primitive(graph, ty) == Some(graph.variants_of(ty)[index]),
{
    let variants = graph.variants_of(ty);
    assert forall|i: int| 0 <= i < variants.len() && i != index implies !primitive_type(
        graph,
        #[trigger] variants[i],
    ) by {
        assert(base_of_literal(graph, variants[index], variants[i]));
    }
    assert(absorbs_at(graph, variants, index));
    let chosen = choose|i: int| absorbs_at(graph, variants, i);
    assert(absorbs_at(graph, variants, chosen));
    assert(chosen == index);
}

/// A function that is annotated with a primitive type and returns at least two
/// expressions, all of them literals of it, is reported. The exception is a
/// `boolean` function that returns both `true` and `false`.
pub proof fn law_literals_under_primitive_are_reported(
    graph: &TypeGraph,
    primitive: TypeId,
    returned: Seq<TypeId>,
    has_any_const: bool,
)
    requires
        primitive_type(graph, primitive),
        returned.len() >= 2,
        forall|i: int|
            0 <= i < returned.len() ==> base_of_literal(graph, primitive, #[trigger] returned[i]),
        !(boolean_returned(graph, returned, true) && boolean_returned(graph, returned, false)),
    ensures
        misleading(graph, primitive, returned, has_any_const),
{
    assert(graph.variants_of(primitive).len() == 0);
    assert forall|i: int| 0 <= i < returned.len() implies !any_contaminated(
        graph,
        #[trigger] returned[i],
    ) && wider_than(graph, primitive, returned[i]) by {
        assert(base_of_literal(graph, primitive, returned[i]));
        assert(graph.variants_of(returned[i]).len() == 0);
        assert(constraint_of(graph, returned[i]) is None);
        law_primitive_widens_its_literals(graph, primitive, returned[i]);
    }
    assert(base_of_literal(graph, primitive, returned[0]));
    let pair = (primitive, returned[0]);
    assert(property_widening(graph)(pair) == property_step(graph, pair));
    lemma_mismatch(property_widening(graph), pair);
}

/// A function that returns just one literal of a primitive type is not
/// reported, unless the annotation is a union or `as const` is used.
pub proof fn law_single_literal_is_not_reported(
    graph: &TypeGraph,
    effective: TypeId,
    returned: Seq<TypeId>,
)
    requires
        single_literal_return(graph, returned),
        !graph.union_type(effective),
    ensures
        !misleading(graph, effective, returned, false),
{
}

/// What is reported is never an annotation that is right about less than what
/// is returned: it covers every returned type, and is none of them exactly.
pub proof fn law_reported_annotation_covers_returns(
    graph: &TypeGraph,
    effective: TypeId,
    returned: Seq<TypeId>,
    has_any_const: bool,
    index: int,
)
    requires
        misleading(graph, effective, returned, has_any_const),
        graph.well_formed(),
        effective < graph.size(),
        0 <= index < returned.len(),
    ensures
        graph.union_type(effective) ==> covered_by_some(
            graph,
            graph.variants_of(effective),
            returned[index],
        ),
        !graph.union_type(effective) ==> {
            let others = alternatives(graph, generic_resolved(graph, returned[index]));
            forall|i: int| 0 <= i < others.len() ==> covers(graph, effective, #[trigger] others[i])
        },
        !graph.union_type(effective) ==> !same_type(
            graph,
            effective,
            generic_resolved(graph, returned[index]),
        ),
        !same_type(graph, effective, returned[index]),
{
    let inferred = returned[index];
    if graph.union_type(effective) {
        let variants = graph.variants_of(effective);
        assert(graph.flat(effective));
        assert(covered_by_some(graph, variants, inferred));
        if same_type(graph, effective, inferred) {
            lemma_matching_union(graph, effective, inferred);
            let i = choose|i: int|
                0 <= i < variants.len() && covers(graph, #[trigger] variants[i], inferred);
            lemma_union_is_not_covered(graph, variants[i], inferred);
        }
    } else {
        assert(wider_than(graph, effective, inferred));
        law_wider_is_strict(graph, effective, inferred);
    }
}

/// A type that is no union does not cover one.
proof fn lemma_union_is_not_covered(graph: &TypeGraph, annotated: TypeId, inferred: TypeId)
    requires
        !graph.union_type(annotated),
        graph.union_type(inferred),
    ensures
        !covers(graph, annotated, inferred),
{
    let pair = (annotated, inferred);
    if same_type(graph, annotated, inferred) {
        lemma_matching_kinds(graph, annotated, inferred);
    }
    assert(widening(graph)(pair) == widening_step(graph, pair));
    lemma_mismatch(widening(graph), pair);
}

/// An annotation that says nothing that could be narrowed is never reported,
/// nor is the promise of one taken apart.
pub proof fn law_escape_hatches_are_not_reported(
    graph: &TypeGraph,
    func_type: TypeId,
    is_async: bool,
    returned: Seq<TypeId>,
    has_any_const: bool,
)
    ensures
        match reported_type(graph, func_type, is_async, returned, has_any_const) {
            Some(effective) => {
                &&& return_type_of(graph, func_type) is Some
                &&& !escape_hatch(graph, return_type_of(graph, func_type)->0)
                &&& !escape_hatch(graph, effective)
            },
            None => true,
        },
{
    if let Some(return_ty) = return_type_of(graph, func_type) {
        let inner = if is_async {
            promise_unwrapped(graph, return_ty)
        } else {
            return_ty
        };
        if let Some(primitive) = absorbing_primitive(graph, inner) {
            law_collapse(graph, inner, primitive);
        }
    }
}

/// Using `as const` only adds reports.
pub proof fn law_const_only_adds_reports(
    graph: &TypeGraph,
    effective: TypeId,
    returned: Seq<TypeId>,
)
    requires
        misleading(graph, effective, returned, false),
    ensures
        misleading(graph, effective, returned, true),
{
}

/// A function whose annotation is a primitive type is reported with that type
/// if it returns at least two expressions, all of them literals of it, and not
/// both `true` and `false`.
pub proof fn law_primitive_annotation_is_reported(
    graph: &TypeGraph,
    func_type: TypeId,
    is_async: bool,
    primitive: TypeId,
    returned: Seq<TypeId>,
    has_any_const: bool,
)
    requires
        return_type_of(graph, func_type) == Some(primitive),
        primitive_type(graph, primitive),
        returned.len() >= 2,
        forall|i: int|
            0 <= i < returned.len() ==> base_of_literal(graph, primitive, #[trigger] returned[i]),
        !(boolean_returned(graph, returned, true) && boolean_returned(graph, returned, false)),
    ensures
        reported_type(graph, func_type, is_async, returned, has_any_const) == Some(primitive),
{
    assert(forall|i: int| !absorbs_at(graph, graph.variants_of(primitive), i));
    law_literals_under_primitive_are_reported(graph, primitive, returned, has_any_const);
}

/// A function, method or getter whose annotation is a primitive type is
/// reported, with the range of the annotation and what it returns, if its body
/// returns at least two expressions, all of them literals of that type, and not
/// both `true` and `false`.
pub proof fn law_literal_returns_are_reported(
    state: Option<RuleState>,
    graph: &TypeGraph,
    tree: &SyntaxTree,
    annotation_range: TextRange,
    func_type: TypeId,
    is_async: bool,
    body: FunctionBody,
    primitive: TypeId,
)
    requires
        reports(state, graph, tree, annotation_range, func_type, is_async, body),
        return_type_of(graph, func_type) == Some(primitive),
        primitive_type(graph, primitive),
        ({
            let returned = types_of(tree, body_returns(tree, body));
            &&& returned.len() >= 2
            &&& forall|i: int|
                0 <= i < returned.len() ==> base_of_literal(
                    graph,
                    primitive,
                    #[trigger] returned[i],
                )
            &&& !(boolean_returned(graph, returned, true) && boolean_returned(
                graph,
                returned,
                false,
            ))
        }),
    ensures
        state is Some,
        state->0.annotation_range == annotation_range,
        state->0.returns@ == types_of(tree, body_returns(tree, body)),
        state->0.effective_return_ty == primitive,
{
    let expressions = body_returns(tree, body);
    law_primitive_annotation_is_reported(
        graph,
        func_type,
        is_async,
        primitive,
        types_of(tree, expressions),
        any_const(tree, expressions),
    );
}

/// The same types are returned, in whatever order.
pub open spec fn same_returns(a: Seq<TypeId>, b: Seq<TypeId>) -> bool {
    a.to_multiset() == b.to_multiset()
}

/// Every returned type of `a` is found in `b`.
proof fn lemma_found_in_reordered(a: Seq<TypeId>, b: Seq<TypeId>, index: int) -> (at: int)
    requires
        same_returns(a, b),
        0 <= index < a.len(),
    ensures
        0 <= at < b.len(),
        b[at] == a[index],
{
    broadcast use vstd::seq_lib::group_to_multiset_ensures;

    assert(a.contains(a[index]));
    assert(a.to_multiset().count(a[index]) > 0);
    assert(b.contains(a[index]));
    choose|at: int| 0 <= at < b.len() && b[at] == a[index]
}

proof fn lemma_reordered_len(a: Seq<TypeId>, b: Seq<TypeId>)
    requires
        same_returns(a, b),
    ensures
        a.len() == b.len(),
{
    broadcast use vstd::seq_lib::group_to_multiset_ensures;

    assert(a.to_multiset().len() == a.len());
    assert(b.to_multiset().len() == b.len());
}

proof fn lemma_reordered_all_covered(
    graph: &TypeGraph,
    variants: Seq<TypeId>,
    a: Seq<TypeId>,
    b: Seq<TypeId>,
)
    requires
        same_returns(a, b),
        all_covered(graph, variants, a),
    ensures
        all_covered(graph, variants, b),
{
    assert forall|i: int| 0 <= i < b.len() implies #[trigger] covered_by_some(
        graph,
        variants,
        b[i],
    ) by {
        let at = lemma_found_in_reordered(b, a, i);
        assert(covered_by_some(graph, variants, a[at]));
    }
}

proof fn lemma_reordered_covers_some(
    graph: &TypeGraph,
    variant: TypeId,
    a: Seq<TypeId>,
    b: Seq<TypeId>,
)
    requires
        same_returns(a, b),
        covers_some(graph, variant, b),
    ensures
        covers_some(graph, variant, a),
{
    let k = choose|k: int| 0 <= k < b.len() && covers(graph, variant, #[trigger] b[k]);
    let at = lemma_found_in_reordered(b, a, k);
    assert(covers(graph, variant, a[at]));
}

proof fn lemma_reordered_unreached(
    graph: &TypeGraph,
    variants: Seq<TypeId>,
    a: Seq<TypeId>,
    b: Seq<TypeId>,
)
    requires
        same_returns(a, b),
        some_unreached(graph, variants, a),
    ensures
        some_unreached(graph, variants, b),
{
    let i = choose|i: int|
        0 <= i < variants.len() && !covers_some(graph, #[trigger] variants[i], a);
    if covers_some(graph, variants[i], b) {
        lemma_reordered_covers_some(graph, variants[i], a, b);
    }
}

proof fn lemma_reordered_only_widened(
    graph: &TypeGraph,
    variants: Seq<TypeId>,
    a: Seq<TypeId>,
    b: Seq<TypeId>,
)
    requires
        same_returns(a, b),
        some_only_widened(graph, variants, a),
    ensures
        some_only_widened(graph, variants, b),
{
    let i = choose|i: int| 0 <= i < a.len() && only_widened(graph, variants, #[trigger] a[i]);
    let at = lemma_found_in_reordered(a, b, i);
    assert(only_widened(graph, variants, b[at]));
}

proof fn lemma_reordered_wider(
    graph: &TypeGraph,
    effective: TypeId,
    a: Seq<TypeId>,
    b: Seq<TypeId>,
)
    requires
        same_returns(a, b),
        wider_than_returned(graph, effective, a),
    ensures
        wider_than_returned(graph, effective, b),
{
    if graph.union_type(effective) {
        let variants = graph.variants_of(effective);
        lemma_reordered_all_covered(graph, variants, a, b);
        if some_unreached(graph, variants, a) {
            lemma_reordered_unreached(graph, variants, a, b);
        } else {
            lemma_reordered_only_widened(graph, variants, a, b);
        }
    } else {
        assert forall|i: int| 0 <= i < b.len() implies wider_than(
            graph,
            effective,
            #[trigger] b[i],
        ) by {
            let at = lemma_found_in_reordered(b, a, i);
            assert(wider_than(graph, effective, a[at]));
        }
    }
}

proof fn lemma_reordered_misleading(
    graph: &TypeGraph,
    effective: TypeId,
    a: Seq<TypeId>,
    b: Seq<TypeId>,
    has_any_const: bool,
)
    requires
        same_returns(a, b),
        misleading(graph, effective, a, has_any_const),
    ensures
        misleading(graph, effective, b, has_any_const),
{
    lemma_reordered_len(a, b);
    if single_literal_return(graph, b) {
        let at = lemma_found_in_reordered(b, a, 0);
        assert(single_literal_return(graph, a));
    }
    assert forall|value: bool| #[trigger]
        boolean_returned(graph, b, value) implies boolean_returned(graph, a, value) by {
        let i = choose|i: int| 0 <= i < b.len() && boolean_literal(graph, #[trigger] b[i], value);
        let at = lemma_found_in_reordered(b, a, i);
        assert(boolean_literal(graph, a[at], value));
    }
    assert forall|i: int| 0 <= i < b.len() implies !any_contaminated(graph, #[trigger] b[i])
        && !intersection_with_type_param(graph, b[i]) by {
        let at = lemma_found_in_reordered(b, a, i);
        assert(!any_contaminated(graph, a[at]));
        assert(!intersection_with_type_param(graph, a[at]));
    }
    if admits_undefined(graph, effective) {
        let i = choose|i: int| 0 <= i < a.len() && admits_undefined(graph, #[trigger] a[i]);
        let at = lemma_found_in_reordered(a, b, i);
        assert(admits_undefined(graph, b[at]));
    }
    if only_property_widening(graph, effective, b) {
        assert forall|i: int| 0 <= i < a.len() implies finds_wider(
            property_widening(graph),
            (effective, #[trigger] a[i]),
        ) by {
            let at = lemma_found_in_reordered(a, b, i);
            assert(finds_wider(property_widening(graph), (effective, b[at])));
        }
    }
    lemma_reordered_wider(graph, effective, a, b);
}

/// Whether a function is reported does not depend on the order of its return statements.
pub proof fn law_order_of_returns(
    graph: &TypeGraph,
    effective: TypeId,
    a: Seq<TypeId>,
    b: Seq<TypeId>,
    has_any_const: bool,
)
    requires
        same_returns(a, b),
    ensures
        misleading(graph, effective, a, has_any_const) == misleading(
            graph,
            effective,
            b,
            has_any_const,
        ),
{
    if misleading(graph, effective, a, has_any_const) {
        lemma_reordered_misleading(graph, effective, a, b, has_any_const);
    }
    if misleading(graph, effective, b, has_any_const) {
        lemma_reordered_misleading(graph, effective, b, a, has_any_const);
    }
}

/// A suggestion is at most [`MAX_DESCRIPTION_LENGTH`] bytes long, and so at
/// most that many characters.
pub proof fn law_suggestions_are_short(graph: &TypeGraph, state: RuleState)
    ensures
        byte_len(state.suggestion_text(graph)) <= MAX_DESCRIPTION_LENGTH,
        state.suggestion_text(graph).len() <= MAX_DESCRIPTION_LENGTH,
{
    lemma_chars_within_bytes(state.suggestion_text(graph));
}

/// Where `as const` is used, an annotation is not narrowed: only the returned
/// values themselves are suggested.
pub proof fn law_const_suggestions_are_inferred(graph: &TypeGraph, state: RuleState)
    requires
        state.has_any_const_return,
        state.suggestion(graph) is Some,
    ensures
        state.suggestion(graph) == Some(DescriptionKind::Inferred),
{
}

/// A mark that no separator and no quote can be part of.
spec fn plain_mark(mark: Seq<char>) -> bool {
    &&& mark.len() > 0
    &&& mark[0] != ' '
    &&& mark.last() != ' '
    &&& forall|i: int| 0 <= i < mark.len() ==> #[trigger] mark[i] != '|' && mark[i] != '"'
}

proof fn lemma_marks_are_plain()
    ensures
        plain_mark("..."@),
        plain_mark("__internal"@),
        plain_mark("typeof import("@),
{
    reveal_strlit("...");
    reveal_strlit("__internal");
    reveal_strlit("typeof import(");
}

/// A mark does not reach across a separator.
proof fn lemma_mark_in_separated(mark: Seq<char>, first: Seq<char>, second: Seq<char>)
    requires
        plain_mark(mark),
        occurs(mark, first + SEPARATOR@ + second),
    ensures
        occurs(mark, first) || occurs(mark, second),
{
    reveal_strlit(" | ");
    let text = first + SEPARATOR@ + second;
    let at = choose|at: int| stands_at(mark, text, at);
    let found = text.subrange(at, at + mark.len());
    let begin = first.len() as int;
    assert(forall|i: int| 0 <= i < mark.len() ==> mark[i] == #[trigger] found[i]);
    if at + mark.len() <= begin {
        assert(first.subrange(at, at + mark.len()) =~= mark);
        assert(stands_at(mark, first, at));
    } else if at >= begin + 3 {
        assert(second.subrange(at - begin - 3, at - begin - 3 + mark.len()) =~= mark);
        assert(stands_at(mark, second, at - begin - 3));
    } else if at <= begin + 1 < at + mark.len() {
        assert(found[begin + 1 - at] == '|');
        assert(mark[begin + 1 - at] == '|');
        assert(false);
    } else if at + mark.len() == begin + 1 {
        assert(found[mark.len() - 1] == ' ');
        assert(false);
    } else {
        assert(found[0] == ' ');
        assert(false);
    }
}

/// A mark does not reach into the quotes around a text.
proof fn lemma_mark_in_quotes(mark: Seq<char>, text: Seq<char>)
    requires
        plain_mark(mark),
        occurs(mark, "\""@ + text + "\""@),
    ensures
        occurs(mark, text),
{
    reveal_strlit("\"");
    let quoted = "\""@ + text + "\""@;
    let at = choose|at: int| stands_at(mark, quoted, at);
    let found = quoted.subrange(at, at + mark.len());
    assert(forall|i: int| 0 <= i < mark.len() ==> mark[i] == #[trigger] found[i]);
    if at == 0 {
        assert(found[0] == '"');
        assert(false);
    }
    if at + mark.len() == quoted.len() {
        assert(found[mark.len() - 1] == '"');
        assert(false);
    }
    assert(text.subrange(at - 1, at - 1 + mark.len()) =~= mark);
    assert(stands_at(mark, text, at - 1));
}

proof fn lemma_boolean_text_is_clean()
    ensures
        clean_text("true"@),
        clean_text("false"@),
{
    reveal_strlit("...");
    reveal_strlit("__internal");
    reveal_strlit("typeof import(");
    reveal_strlit("true");
    reveal_strlit("false");
    assert forall|at: int| !stands_at("..."@, "true"@, at) by {
        if stands_at("..."@, "true"@, at) {
            assert("true"@.subrange(at, at + 3)[0] == '.');
        }
    }
    assert forall|at: int| !stands_at("..."@, "false"@, at) by {
        if stands_at("..."@, "false"@, at) {
            assert("false"@.subrange(at, at + 3)[0] == '.');
        }
    }
}

/// The text of a literal holds none of the marks exactly when its content
/// holds none of them.
pub proof fn law_clean_literals_have_clean_text(literal: Literal)
    requires
        literal_text(literal) is Some,
    ensures
        clean_text(literal_text(literal)->0) == match literal {
            Literal::String(value) => clean_text(value@),
            Literal::Number(value) => clean_text(value@),
            _ => true,
        },
{
    lemma_marks_are_plain();
    lemma_boolean_text_is_clean();
    if let Literal::String(value) = literal {
        let quoted = "\""@ + value@ + "\""@;
        assert forall|mark: Seq<char>| plain_mark(mark) implies #[trigger] occurs(mark, quoted)
            == occurs(mark, value@) by {
            if occurs(mark, quoted) {
                lemma_mark_in_quotes(mark, value@);
            }
            if occurs(mark, value@) {
                reveal_strlit("\"");
                let at = choose|at: int| stands_at(mark, value@, at);
                assert(quoted.subrange(at + 1, at + 1 + mark.len()) =~= mark);
                assert(stands_at(mark, quoted, at + 1));
            }
        }
    }
}

proof fn lemma_inferred_text_is_clean(graph: &TypeGraph, returned: Seq<TypeId>, count: nat)
    requires
        count <= returned.len(),
        forall|i: int|
            0 <= i < returned.len() ==> showable_literal(graph, #[trigger] returned[i]),
    ensures
        clean_text(joined(inferred_texts(graph, returned, count))),
        inferred_texts(graph, returned, count).len() == count,
    decreases count,
{
    lemma_marks_are_plain();
    if count == 0 {
        assert forall|mark: Seq<char>| plain_mark(mark) implies !#[trigger] occurs(
            mark,
            Seq::<char>::empty(),
        ) by {}
    } else {
        let texts = inferred_texts(graph, returned, (count - 1) as nat);
        lemma_inferred_text_is_clean(graph, returned, (count - 1) as nat);
        assert(showable_literal(graph, returned[count - 1]));
        if let TypeData::Literal(literal) = graph.data_of(returned[count - 1]) {
            let text = literal_text(literal)->0;
            law_clean_literals_have_clean_text(literal);
            lemma_joined_push(texts, text);
            if texts.len() > 0 {
                assert forall|mark: Seq<char>|
                    plain_mark(mark) && !occurs(mark, joined(texts)) && !occurs(
                        mark,
                        text,
                    ) implies !#[trigger] occurs(mark, joined(texts) + SEPARATOR@ + text) by {
                    if occurs(mark, joined(texts) + SEPARATOR@ + text) {
                        lemma_mark_in_separated(mark, joined(texts), text);
                    }
                }
            }
        }
    }
}

/// A suggestion that is built from returned values shows nothing of an
/// abridged or internal type.
pub proof fn law_inferred_suggestions_are_clean(graph: &TypeGraph, state: RuleState)
    requires
        state.suggestion(graph) == Some(DescriptionKind::Inferred),
    ensures
        clean_text(state.suggestion_text(graph)),
{
    lemma_inferred_text_is_clean(graph, state.returns@, state.returns@.len());
}

/// The variants that are needed are variants that cover some returned type.
proof fn lemma_needed_variants_cover(
    graph: &TypeGraph,
    variants: Seq<TypeId>,
    returned: Seq<TypeId>,
    count: nat,
    index: int,
)
    requires
        count <= variants.len(),
        0 <= index < covered_variants(graph, variants, returned, count).len(),
    ensures
        covers_some(graph, covered_variants(graph, variants, returned, count)[index], returned),
        variants.contains(covered_variants(graph, variants, returned, count)[index]),
    decreases count,
{
    let before = covered_variants(graph, variants, returned, (count - 1) as nat);
    let after = covered_variants(graph, variants, returned, count);
    if index < before.len() {
        lemma_needed_variants_cover(graph, variants, returned, (count - 1) as nat, index);
        assert(after[index] == before[index]);
    } else {
        assert(after[index] == variants[count - 1]);
    }
}

/// Variants that cover some returned type are needed.
proof fn lemma_covering_variants_needed(
    graph: &TypeGraph,
    variants: Seq<TypeId>,
    returned: Seq<TypeId>,
    count: nat,
    index: int,
)
    requires
        0 <= index < count <= variants.len(),
        covers_some(graph, variants[index], returned),
    ensures
        covered_variants(graph, variants, returned, count).contains(variants[index]),
    decreases count,
{
    let before = covered_variants(graph, variants, returned, (count - 1) as nat);
    let after = covered_variants(graph, variants, returned, count);
    if index < count - 1 {
        lemma_covering_variants_needed(graph, variants, returned, (count - 1) as nat, index);
        let at = choose|at: int| 0 <= at < before.len() && before[at] == variants[index];
        assert(after[at] == variants[index]);
    } else {
        assert(after[before.len() as int] == variants[index]);
    }
}

/// Narrowing an annotation to the variants that are needed takes nothing away:
/// what the union covers, the narrowed union covers.
pub proof fn law_narrowing_keeps_coverage(
    graph: &TypeGraph,
    annotation: TypeId,
    returned: Seq<TypeId>,
)
    requires
        all_covered(graph, graph.variants_of(annotation), returned),
    ensures
        all_covered(graph, needed_variants(graph, annotation, returned), returned),
{
    let variants = graph.variants_of(annotation);
    let needed = needed_variants(graph, annotation, returned);
    assert forall|i: int| 0 <= i < returned.len() implies #[trigger] covered_by_some(
        graph,
        needed,
        returned[i],
    ) by {
        assert(covered_by_some(graph, variants, returned[i]));
        let k = choose|k: int|
            0 <= k < variants.len() && covers(graph, #[trigger] variants[k], returned[i]);
        assert(covers_some(graph, variants[k], returned)) by {
            assert(covers(graph, variants[k], returned[i]));
        }
        lemma_covering_variants_needed(graph, variants, returned, variants.len(), k);
        let at = choose|at: int| 0 <= at < needed.len() && needed[at] == variants[k];
        assert(covers(graph, needed[at], returned[i]));
    }
}

/// Nothing is reported for a union without unreached variants and without
/// variants that are wider than a returned type.
proof fn lemma_tight_union_is_not_wider(
    graph: &TypeGraph,
    variants: Seq<TypeId>,
    returned: Seq<TypeId>,
)
    requires
        forall|i: int|
            0 <= i < variants.len() ==> covers_some(graph, #[trigger] variants[i], returned),
        forall|i: int|
            0 <= i < variants.len() ==> !widening_variant(graph, #[trigger] variants[i], returned),
    ensures
        !union_wider_than_returned(graph, variants, returned),
{
    assert(!some_unreached(graph, variants, returned));
    assert forall|i: int| 0 <= i < returned.len() implies !only_widened(
        graph,
        variants,
        #[trigger] returned[i],
    ) by {
        if widened_by_some(graph, variants, returned[i]) {
            let k = choose|k: int|
                0 <= k < variants.len() && nonunion_wider(
                    graph,
                    #[trigger] variants[k],
                    returned[i],
                );
            assert(!widening_variant(graph, variants[k], returned));
            assert(same_type(graph, variants[k], returned[i]));
            assert(matched_by_some(graph, variants, returned[i]));
        }
    }
}

/// A type that is a primitive type or a literal, covers some returned type and
/// widens none is not wider than all of them.
proof fn lemma_tight_type_is_not_wider(
    graph: &TypeGraph,
    variant: TypeId,
    returned: Seq<TypeId>,
)
    requires
        variant_text(graph, variant) is Some,
        covers_some(graph, variant, returned),
        !widening_variant(graph, variant, returned),
    ensures
        !wider_than_returned(graph, variant, returned),
{
    let i = choose|i: int|
        0 <= i < returned.len() && covers(graph, variant, #[trigger] returned[i]);
    assert(same_type(graph, variant, returned[i]));
    if wider_than(graph, variant, returned[i]) {
        law_wider_is_strict(graph, variant, returned[i]);
    }
}

/// Following a suggestion to narrow a union settles the matter: the narrowed
/// annotation, which is a union of the variants that are needed or the only
/// such variant, is not reported again.
pub proof fn law_narrowed_suggestion_is_not_reported(
    graph: &TypeGraph,
    annotation: TypeId,
    returned: Seq<TypeId>,
    narrowed: TypeId,
)
    requires
        narrowed_renderable(graph, annotation, returned),
        ({
            let needed = needed_variants(graph, annotation, returned);
            if needed.len() == 1 {
                narrowed == needed[0]
            } else {
                graph.union_type(narrowed) && graph.variants_of(narrowed) == needed
            }
        }),
    ensures
        !misleading(graph, narrowed, returned, false),
{
    let variants = graph.variants_of(annotation);
    let needed = needed_variants(graph, annotation, returned);
    assert forall|i: int| 0 <= i < needed.len() implies covers_some(
        graph,
        #[trigger] needed[i],
        returned,
    ) by {
        lemma_needed_variants_cover(graph, variants, returned, variants.len(), i);
    }
    if needed.len() == 1 {
        assert(variant_text(graph, needed[0]) is Some);
        if !single_literal_return(graph, returned) {
            assert(!widening_variant(graph, needed[0], returned));
            lemma_tight_type_is_not_wider(graph, narrowed, returned);
        }
    } else {
        lemma_tight_union_is_not_wider(graph, needed, returned);
    }
}

/// A literal among the returned types covers itself, and widens none of them.
proof fn lemma_literal_covers_itself_only(graph: &TypeGraph, returned: Seq<TypeId>, index: int)
    requires
        0 <= index < returned.len(),
        graph.data_of(returned[index]) is Literal,
    ensures
        covers_some(graph, returned[index], returned),
        !widening_variant(graph, returned[index], returned),
{
    law_types_match_reflexive(graph, returned[index]);
    assert(covers(graph, returned[index], returned[index]));
    assert forall|k: int| 0 <= k < returned.len() implies !nonunion_wider(
        graph,
        returned[index],
        #[trigger] returned[k],
    ) by {
        lemma_inert_is_not_wider(graph, returned[index], returned[k]);
    }
}

/// Literals, taken together, are not wider than themselves.
proof fn lemma_literals_are_not_wider(graph: &TypeGraph, returned: Seq<TypeId>)
    requires
        forall|i: int| 0 <= i < returned.len() ==> graph.data_of(#[trigger] returned[i]) is Literal,
    ensures
        !union_wider_than_returned(graph, returned, returned),
{
    assert forall|i: int| 0 <= i < returned.len() implies covers_some(
        graph,
        #[trigger] returned[i],
        returned,
    ) && !widening_variant(graph, returned[i], returned) by {
        lemma_literal_covers_itself_only(graph, returned, i);
    }
    lemma_tight_union_is_not_wider(graph, returned, returned);
}

/// Following a suggestion to spell out the returned values settles the matter:
/// an annotation that is the union of the returned literals, or the only one,
/// is not reported again.
pub proof fn law_inferred_suggestion_is_not_reported(
    graph: &TypeGraph,
    returned: Seq<TypeId>,
    spelled_out: TypeId,
    has_any_const: bool,
)
    requires
        inferred_renderable(graph, returned),
        if returned.len() == 1 {
            spelled_out == returned[0]
        } else {
            graph.union_type(spelled_out) && graph.variants_of(spelled_out) == returned
        },
    ensures
        !misleading(graph, spelled_out, returned, has_any_const),
{
    assert(!wider_than_returned(graph, spelled_out, returned)) by {
        if returned.len() == 1 {
            assert(showable_literal(graph, returned[0]));
            lemma_literal_covers_itself_only(graph, returned, 0);
            lemma_tight_type_is_not_wider(graph, spelled_out, returned);
        } else {
            assert forall|i: int| 0 <= i < returned.len() implies graph.data_of(
                #[trigger] returned[i],
            ) is Literal by {
                assert(showable_literal(graph, returned[i]));
            }
            lemma_literals_are_not_wider(graph, returned);
        }
    }
}

/// Only functions, methods and getters with an annotation and a body are
/// reported, with the range of the annotation. Generators, implementations of
/// overloads, and getters with a setter of the same name are not.
pub proof fn law_what_is_reported(
    graph: &TypeGraph,
    tree: &SyntaxTree,
    node: NodeId,
    state: RuleState,
)
    requires
        node_reports(Some(state), graph, tree, node),
    ensures
        match tree.data_of(node) {
            NodeData::Function(function) => {
                &&& function.annotation == Some(state.annotation_range)
                &&& function.body is Some
                &&& !function.is_generator
                &&& !overload_implementation(tree, node)
            },
            NodeData::MethodClassMember(method) => {
                &&& method.annotation == Some(state.annotation_range)
                &&& method.body is Some
                &&& !method.is_generator
                &&& !method_overload_implementation(tree, node)
            },
            NodeData::MethodObjectMember(method) => {
                &&& method.annotation == Some(state.annotation_range)
                &&& method.body is Some
                &&& !method.is_generator
            },
            NodeData::GetterClassMember(getter) => {
                &&& getter.annotation == Some(state.annotation_range)
                &&& getter.body is Some
                &&& getter.member is Some
                &&& !getter.member->0.has_matching_setter
            },
            NodeData::GetterObjectMember(getter) => {
                &&& getter.annotation == Some(state.annotation_range)
                &&& getter.body is Some
                &&& getter.member is Some
                &&& !getter.member->0.has_matching_setter
            },
            _ => false,
        },
        state.returns@.len() > 0,
        !escape_hatch(graph, state.effective_return_ty),
        misleading(
            graph,
            state.effective_return_ty,
            state.returns@,
            state.has_any_const_return,
        ),
{
    if let NodeData::Function(function) = tree.data_of(node) {
        if let Some(body) = function.body {
            lemma_reported_state(graph, tree, state, function.ty, function.is_async, body);
        }
    }
    if let NodeData::MethodClassMember(method) = tree.data_of(node) {
        if let (Some(ty), Some(body)) = (method.member_type, method.body) {
            let body = FunctionBody::Block(body);
            lemma_reported_state(graph, tree, state, ty, method.is_async, body);
        }
    }
    if let NodeData::MethodObjectMember(method) = tree.data_of(node) {
        if let (Some(ty), Some(body)) = (method.member_type, method.body) {
            let body = FunctionBody::Block(body);
            lemma_reported_state(graph, tree, state, ty, method.is_async, body);
        }
    }
    if let NodeData::GetterClassMember(getter) = tree.data_of(node) {
        if let (Some(member), Some(body)) = (getter.member, getter.body) {
            let body = FunctionBody::Block(body);
            lemma_reported_state(graph, tree, state, member.ty, false, body);
        }
    }
    if let NodeData::GetterObjectMember(getter) = tree.data_of(node) {
        if let (Some(member), Some(body)) = (getter.member, getter.body) {
            let body = FunctionBody::Block(body);
            lemma_reported_state(graph, tree, state, member.ty, false, body);
        }
    }
}

proof fn lemma_reported_state(
    graph: &TypeGraph,
    tree: &SyntaxTree,
    state: RuleState,
    func_type: TypeId,
    is_async: bool,
    body: FunctionBody,
)
    requires
        reports(
            Some(state),
            graph,
            tree,
            state.annotation_range,
            func_type,
            is_async,
            body,
        ),
    ensures
        !escape_hatch(graph, state.effective_return_ty),
        misleading(
            graph,
            state.effective_return_ty,
            state.returns@,
            state.has_any_const_return,
        ),
{
    law_escape_hatches_are_not_reported(
        graph,
        func_type,
        is_async,
        state.returns@,
        state.has_any_const_return,
    );
}

/// Parentheses, type assertions and `satisfies` do not change the type that a
/// return statement counts with.
pub proof fn law_wrappers_keep_the_type(tree: &SyntaxTree, expression: NodeId)
    ensures
        innermost(tree, innermost(tree, expression)) == innermost(tree, expression),
        returned_type(tree, innermost(tree, expression)) == returned_type(tree, expression),
    decreases tree.size() - expression,
{
    if let Some(inner) = wrapped_expression(tree.data_of(expression)) {
        if expression < inner < tree.size() {
            law_wrappers_keep_the_type(tree, inner);
        }
    }
}

/// An expression that is asserted `as const` itself counts as such wherever it stands.
pub proof fn law_direct_const_counts(tree: &SyntaxTree, expression: NodeId)
    requires
        directly_const(tree, expression),
    ensures
        const_asserted(tree, expression),
    decreases tree.size() - expression,
{
    match tree.data_of(expression) {
        NodeData::ParenthesizedExpression { expression: Some(inner) } => {
            law_direct_const_counts(tree, inner);
        },
        NodeData::SatisfiesExpression { expression: Some(inner) } => {
            law_direct_const_counts(tree, inner);
        },
        _ => {},
    }
}

/// `node` is `ancestor`, or stands inside it.
pub open spec fn stands_in(tree: &SyntaxTree, ancestor: NodeId, node: NodeId) -> bool
    decreases node,
{
    if node == ancestor {
        true
    } else {
        match tree.parent_of(node) {
            Some(parent) => parent < node && stands_in(tree, ancestor, parent),
            None => false,
        }
    }
}

/// What stands in a nested function does not belong to the block around it.
pub proof fn law_nested_functions_do_not_count(
    tree: &SyntaxTree,
    block: NodeId,
    function: NodeId,
    node: NodeId,
)
    requires
        nested_function(tree.data_of(function)),
        !stands_in(tree, function, block),
        stands_in(tree, function, node),
    ensures
        !belongs_to_block(tree, block, node),
    decreases node,
{
    if node != function && node != block {
        if let Some(parent) = tree.parent_of(node) {
            law_nested_functions_do_not_count(tree, block, function, parent);
        }
    }
}

/// What a block returns are the arguments of its own return statements, all of
/// them and nothing else.
pub proof fn law_block_returns(tree: &SyntaxTree, block: NodeId, count: nat, expression: NodeId)
    requires
        count <= usize::MAX,
    ensures
        block_returns(tree, block, count).contains(expression) <==> exists|node: NodeId|
            node < count && #[trigger] return_argument(tree, block, node) == Some(expression),
    decreases count,
{
    let after = block_returns(tree, block, count);
    if count > 0 {
        let before = block_returns(tree, block, (count - 1) as nat);
        let last = (count - 1) as usize;
        law_block_returns(tree, block, (count - 1) as nat, expression);
        if after.contains(expression) {
            let i = choose|i: int| 0 <= i < after.len() && after[i] == expression;
            if i < before.len() {
                assert(before[i] == expression);
                assert(before.contains(expression));
                let node = choose|node: NodeId|
                    node < count - 1 && #[trigger] return_argument(tree, block, node) == Some(
                        expression,
                    );
                assert(return_argument(tree, block, node) == Some(expression));
            } else {
                assert(return_argument(tree, block, last) == Some(expression));
            }
        }
        if exists|node: NodeId|
            node < count && #[trigger] return_argument(tree, block, node) == Some(expression) {
            let node = choose|node: NodeId|
                node < count && #[trigger] return_argument(tree, block, node) == Some(expression);
            if node == last {
                assert(after[before.len() as int] == expression);
            } else {
                assert(before.contains(expression));
                let i = choose|i: int| 0 <= i < before.len() && before[i] == expression;
                assert(after[i] == expression);
            }
        }
    }
}

/// An async function with a promise in its annotation is reported just like a
/// plain function with the type inside the promise.
pub proof fn law_promises_are_unwrapped(
    graph: &TypeGraph,
    async_type: TypeId,
    plain_type: TypeId,
    promise: TypeId,
    inner: TypeId,
    returned: Seq<TypeId>,
    has_any_const: bool,
)
    requires
        return_type_of(graph, async_type) == Some(promise),
        return_type_of(graph, plain_type) == Some(inner),
        promised(graph, promise) == Some(inner),
    ensures
        reported_type(graph, async_type, true, returned, has_any_const) == reported_type(
            graph,
            plain_type,
            false,
            returned,
            has_any_const,
        ),
{
}

/// A union of which every variant covers some returned type, and one matches
/// each returned type, is not reported: other variants that are wider than a
/// returned type do no harm.
pub proof fn law_matched_returns_are_not_reported(
    graph: &TypeGraph,
    effective: TypeId,
    returned: Seq<TypeId>,
    has_any_const: bool,
)
    requires
        graph.union_type(effective),
        forall|i: int|
            0 <= i < graph.variants_of(effective).len() ==> covers_some(
                graph,
                #[trigger] graph.variants_of(effective)[i],
                returned,
            ),
        forall|i: int|
            0 <= i < returned.len() ==> matched_by_some(
                graph,
                graph.variants_of(effective),
                #[trigger] returned[i],
            ),
    ensures
        !misleading(graph, effective, returned, has_any_const),
{
    assert(!some_unreached(graph, graph.variants_of(effective), returned));
    assert(!some_only_widened(graph, graph.variants_of(effective), returned));
}

} // verus!

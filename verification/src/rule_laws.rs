//! What holds of the rule, in terms of the functions, methods and getters that
//! it is applied to.
use crate::classify::{
    admits_undefined, any_contaminated, boolean_returned, escape_hatch,
    intersection_with_type_param, literal_of_primitive, promise_unwrapped, return_type_of,
    single_literal_return, union_with_unknown,
};
use crate::matching::base_of_literal;
use crate::property::only_property_widening;
use crate::returned::{any_const, block_returns, types_of};
use crate::rule::{
    method_overload_implementation, misleading, node_reports,
    overload_implementation, reported_type, wider_than_returned, RuleState,
};
use crate::syntax::{
    FunctionBody, FunctionNode, GetterNode, MethodNode, NodeData, NodeId, SyntaxTree,
};
use crate::type_laws::{
    admits_none, all_admitted, law_unions_wider_than_what_is_returned, some_admits_none,
};
use crate::types::{Literal, ReturnType, TypeData, TypeGraph, TypeId};
use crate::union::{
    absorbing_primitive, absorbs_at, union_wider_than_returned, wider_than,
};
use biome_rowan::TextRange;
use vstd::prelude::*;

verus! {

/// Two nodes are different children of the same node.
pub open spec fn share_a_parent(tree: &SyntaxTree, a: NodeId, b: NodeId) -> bool {
    &&& a != b
    &&& a < tree.size()
    &&& b < tree.size()
    &&& tree.parent_of(a) is Some
    &&& tree.parent_of(a) == tree.parent_of(b)
}

/// The node declares a function of this name, and gives it no body.
pub open spec fn bodiless_function(data: NodeData, name: Seq<char>) -> bool {
    ||| data matches NodeData::DeclareFunction { name: Some(found) } && found@ == name
    ||| data matches NodeData::Function(function) && function.body is None
        && (function.name matches Some(found) && found@ == name)
}

/// A function implements overloads exactly when a function of the same name
/// without a body stands next to it, before or after it.
pub proof fn law_overloads_of_functions(tree: &SyntaxTree, node: NodeId, function: FunctionNode)
    requires
        node < tree.size(),
        tree.data_of(node) == NodeData::Function(function),
    ensures
        overload_implementation(tree, node) <==> exists|name: String, sibling: NodeId|
            function.name == Some(name) && #[trigger] share_a_parent(tree, node, sibling)
                && bodiless_function(tree.data_of(sibling), #[trigger] name@),
{
    if overload_implementation(tree, node) {
        let sibling = choose|sibling: NodeId| #[trigger]
            crate::rule::siblings(tree, node, sibling) && crate::rule::overload_signature(
                tree.data_of(sibling),
                crate::rule::function_name(tree, node),
            );
        assert(share_a_parent(tree, node, sibling));
        let name = function.name->0;
        assert(bodiless_function(tree.data_of(sibling), name@));
    }
    if exists|name: String, sibling: NodeId|
        function.name == Some(name) && #[trigger] share_a_parent(tree, node, sibling)
            && bodiless_function(tree.data_of(sibling), #[trigger] name@) {
        let (name, sibling) = choose|name: String, sibling: NodeId|
            function.name == Some(name) && #[trigger] share_a_parent(tree, node, sibling)
                && bodiless_function(tree.data_of(sibling), #[trigger] name@);
        assert(crate::rule::siblings(tree, node, sibling));
    }
}

/// A method of a class implements overloads exactly when a signature of the same
/// name stands next to it.
pub proof fn law_overloads_of_methods(tree: &SyntaxTree, node: NodeId, method: MethodNode)
    requires
        node < tree.size(),
        tree.data_of(node) == NodeData::MethodClassMember(method),
    ensures
        method_overload_implementation(tree, node) <==> exists|
            name: String,
            other: String,
            sibling: NodeId,
        |
            method.name_token == Some(name) && #[trigger] share_a_parent(tree, node, sibling)
                && tree.data_of(sibling) == (NodeData::MethodSignature { name_token: Some(other) })
                && #[trigger] other@ == #[trigger] name@,
{
    if method_overload_implementation(tree, node) {
        let sibling = choose|sibling: NodeId| #[trigger]
            crate::rule::siblings(tree, node, sibling) && crate::rule::method_signature(
                tree.data_of(sibling),
                crate::rule::method_name(tree, node),
            );
        assert(share_a_parent(tree, node, sibling));
        if let NodeData::MethodSignature { name_token: Some(other) } = tree.data_of(sibling) {
            assert(other@ == method.name_token->0@);
        }
    }
    if exists|name: String, other: String, sibling: NodeId|
        method.name_token == Some(name) && #[trigger] share_a_parent(tree, node, sibling)
            && tree.data_of(sibling) == (NodeData::MethodSignature { name_token: Some(other) })
            && #[trigger] other@ == #[trigger] name@ {
        let (name, other, sibling) = choose|name: String, other: String, sibling: NodeId|
            method.name_token == Some(name) && #[trigger] share_a_parent(tree, node, sibling)
                && tree.data_of(sibling) == (NodeData::MethodSignature { name_token: Some(other) })
                && #[trigger] other@ == #[trigger] name@;
        assert(crate::rule::siblings(tree, node, sibling));
    }
}

/// What is reported of a function of this type whose body returns these
/// expressions: the state names the annotation, the types of the expressions,
/// and the annotated type that they are compared with.
pub open spec fn reported_as(
    state: Option<RuleState>,
    graph: &TypeGraph,
    tree: &SyntaxTree,
    range: TextRange,
    ty: TypeId,
    is_async: bool,
    expressions: Seq<NodeId>,
) -> bool {
    let returned = types_of(tree, expressions);
    let constant = any_const(tree, expressions);
    let effective = reported_type(graph, ty, is_async, returned, constant);
    &&& state is Some <==> effective is Some
    &&& state matches Some(found) ==> {
        &&& found.annotation_range == range
        &&& found.returns@ == returned
        &&& effective == Some(found.effective_return_ty)
        &&& found.has_any_const_return == constant
    }
}

/// A function with an annotation and a body is judged by its type, by whether it
/// is async, and by what its body returns. Nothing is said of generators, of
/// implementations of overloads, nor without an annotation or a body.
pub proof fn law_functions_are_judged(
    state: Option<RuleState>,
    graph: &TypeGraph,
    tree: &SyntaxTree,
    node: NodeId,
    function: FunctionNode,
)
    requires
        tree.data_of(node) == NodeData::Function(function),
        node_reports(state, graph, tree, node),
    ensures
        function.is_generator ==> state is None,
        overload_implementation(tree, node) ==> state is None,
        function.annotation is None || function.body is None ==> state is None,
        !function.is_generator && !overload_implementation(tree, node)
            && function.annotation is Some ==> {
            &&& forall|block: NodeId| #[trigger]
                function.body == Some(FunctionBody::Block(block)) ==> reported_as(
                    state,
                    graph,
                    tree,
                    function.annotation->0,
                    function.ty,
                    function.is_async,
                    block_returns(tree, block, tree.size()),
                )
            &&& forall|expression: NodeId| #[trigger]
                function.body == Some(FunctionBody::Expression(expression)) ==> reported_as(
                    state,
                    graph,
                    tree,
                    function.annotation->0,
                    function.ty,
                    function.is_async,
                    seq![expression],
                )
        },
{
}

/// A method of a class or of an object is judged like a function with the same
/// type, async flag and body. Nothing is said of generators, of implementations
/// of overloads in a class, nor where the name, the annotation or the body is
/// missing.
pub proof fn law_methods_are_judged_like_functions(
    state: Option<RuleState>,
    graph: &TypeGraph,
    tree: &SyntaxTree,
    node: NodeId,
    method: MethodNode,
)
    requires
        tree.data_of(node) == NodeData::MethodClassMember(method) || tree.data_of(node)
            == NodeData::MethodObjectMember(method),
        node_reports(state, graph, tree, node),
    ensures
        method.is_generator ==> state is None,
        tree.data_of(node) is MethodClassMember && method_overload_implementation(tree, node)
            ==> state is None,
        method.annotation is None || method.member_type is None || method.body is None
            ==> state is None,
        !method.is_generator && !(tree.data_of(node) is MethodClassMember
            && method_overload_implementation(tree, node)) && method.annotation is Some
            && method.member_type is Some && method.body is Some ==> reported_as(
            state,
            graph,
            tree,
            method.annotation->0,
            method.member_type->0,
            method.is_async,
            block_returns(tree, method.body->0, tree.size()),
        ),
{
}

/// A getter is judged like a function that is not async. Nothing is said of one
/// with a setter of the same name, nor where the name, the annotation or the body
/// is missing.
pub proof fn law_getters_are_judged_like_functions(
    state: Option<RuleState>,
    graph: &TypeGraph,
    tree: &SyntaxTree,
    node: NodeId,
    getter: GetterNode,
)
    requires
        tree.data_of(node) == NodeData::GetterClassMember(getter) || tree.data_of(node)
            == NodeData::GetterObjectMember(getter),
        node_reports(state, graph, tree, node),
    ensures
        getter.annotation is None || getter.member is None || getter.body is None ==> state is None,
        getter.member matches Some(member) ==> {
            &&& member.has_matching_setter ==> state is None
            &&& !member.has_matching_setter && getter.annotation is Some && getter.body is Some
                ==> reported_as(
                state,
                graph,
                tree,
                getter.annotation->0,
                member.ty,
                false,
                block_returns(tree, getter.body->0, tree.size()),
            )
        },
{
}

/// Nothing is reported of any other node.
pub proof fn law_other_nodes_are_not_judged(
    state: Option<RuleState>,
    graph: &TypeGraph,
    tree: &SyntaxTree,
    node: NodeId,
)
    requires
        node_reports(state, graph, tree, node),
        state is Some,
    ensures
        tree.data_of(node) is Function || tree.data_of(node) is MethodClassMember || tree.data_of(
            node,
        ) is MethodObjectMember || tree.data_of(node) is GetterClassMember || tree.data_of(node)
            is GetterObjectMember,
{
}

/// The type is `any`, `void`, `unknown`, `never` or `this`, or could not be inferred.
pub open spec fn says_nothing(data: TypeData) -> bool {
    data is AnyKeyword || data is VoidKeyword || data is UnknownKeyword || data is NeverKeyword
        || data is ThisKeyword || data is Unknown
}

/// Annotations that say nothing are `any`, `void`, `unknown`, `never`, `this` and
/// those that could not be inferred.
pub proof fn law_annotations_that_say_nothing(graph: &TypeGraph, ty: TypeId)
    ensures
        escape_hatch(graph, ty) == says_nothing(graph.data_of(ty)),
{
}

/// The annotated type of a function is the one that its type returns. Type
/// predicates and assertions annotate none.
pub proof fn law_annotated_types(graph: &TypeGraph, func_type: TypeId)
    ensures
        match graph.data_of(func_type) {
            TypeData::Function { return_type: ReturnType::Type(reference), .. } => return_type_of(
                graph,
                func_type,
            ) == graph.resolved(func_type, reference),
            _ => return_type_of(graph, func_type) is None,
        },
{
}

/// Of an async function the type inside the promise counts: the first type
/// argument of the annotated instance, unless that is missing or says nothing.
pub proof fn law_promises_hold_a_type(graph: &TypeGraph, promise: TypeId)
    ensures
        match graph.data_of(promise) {
            TypeData::InstanceOf { ty: _, type_parameters } => {
                &&& type_parameters@.len() == 0 ==> promise_unwrapped(graph, promise) == promise
                &&& type_parameters@.len() > 0 ==> match graph.resolved(
                    promise,
                    type_parameters@[0],
                ) {
                    Some(inner) => promise_unwrapped(graph, promise) == if says_nothing(
                        graph.data_of(inner),
                    ) {
                        promise
                    } else {
                        inner
                    },
                    None => promise_unwrapped(graph, promise) == promise,
                }
            },
            _ => promise_unwrapped(graph, promise) == promise,
        },
{
}

/// What is reported, and with which type: a function whose annotation says
/// something is reported exactly when the annotation misleads, taken without the
/// promise if the function is async, and as a primitive type if it is a union of
/// that type and literals of it.
pub proof fn law_what_is_compared(
    graph: &TypeGraph,
    func_type: TypeId,
    is_async: bool,
    returned: Seq<TypeId>,
    constant: bool,
)
    ensures
        return_type_of(graph, func_type) is None ==> reported_type(
            graph,
            func_type,
            is_async,
            returned,
            constant,
        ) is None,
        return_type_of(graph, func_type) matches Some(annotated) ==> {
            let inner = if is_async {
                promise_unwrapped(graph, annotated)
            } else {
                annotated
            };
            let effective = if absorbing_primitive(graph, inner) is Some {
                absorbing_primitive(graph, inner)->0
            } else {
                inner
            };
            &&& says_nothing(graph.data_of(annotated)) ==> reported_type(
                graph,
                func_type,
                is_async,
                returned,
                constant,
            ) is None
            &&& !says_nothing(graph.data_of(annotated)) && misleading(
                graph,
                effective,
                returned,
                constant,
            ) ==> reported_type(graph, func_type, is_async, returned, constant) == Some(effective)
            &&& !misleading(graph, effective, returned, constant) ==> reported_type(
                graph,
                func_type,
                is_async,
                returned,
                constant,
            ) is None
        },
{
}

/// The type is a variant of a union, or the type itself.
pub open spec fn among(graph: &TypeGraph, ty: TypeId, part: TypeId) -> bool {
    ||| part == ty
    ||| graph.data_of(ty) matches TypeData::Union { variants } && variants@.contains(part)
}

/// A type admits `undefined` exactly when it is `undefined` or `void`, or a union
/// of which one variant is.
pub proof fn law_undefined_is_admitted(graph: &TypeGraph, ty: TypeId)
    ensures
        admits_undefined(graph, ty) <==> exists|part: TypeId| #[trigger]
            among(graph, ty, part) && (graph.data_of(part) is Undefined || graph.data_of(part)
                is VoidKeyword),
{
    lemma_among(graph, ty);
}

/// A type is contaminated by `any` exactly when it is `any`, or a union of which
/// one variant is.
pub proof fn law_any_contaminates(graph: &TypeGraph, ty: TypeId)
    ensures
        any_contaminated(graph, ty) <==> exists|part: TypeId| #[trigger]
            among(graph, ty, part) && graph.data_of(part) is AnyKeyword,
{
    lemma_among(graph, ty);
}

/// A union with an unknown variant is one of which a variant is `unknown`, or
/// could not be inferred.
pub proof fn law_unknown_variants(graph: &TypeGraph, ty: TypeId)
    ensures
        union_with_unknown(graph, ty) <==> graph.data_of(ty) is Union && exists|part: TypeId|
            #[trigger]
            graph.variants_of(ty).contains(part) && (graph.data_of(part) is UnknownKeyword
                || graph.data_of(part) is Unknown),
        graph.data_of(ty) matches TypeData::Union { variants } ==> graph.variants_of(ty)
            == variants@,
        !(graph.data_of(ty) is Union) ==> graph.variants_of(ty).len() == 0,
{
    if union_with_unknown(graph, ty) {
        let i = choose|i: int|
            0 <= i < graph.variants_of(ty).len() && {
                let variant = #[trigger] graph.variants_of(ty)[i];
                graph.data_of(variant) is UnknownKeyword || graph.data_of(variant) is Unknown
            };
        assert(graph.variants_of(ty).contains(graph.variants_of(ty)[i]));
    }
}

proof fn lemma_among(graph: &TypeGraph, ty: TypeId)
    ensures
        forall|part: TypeId| #[trigger]
            among(graph, ty, part) ==> part == ty || exists|i: int|
                0 <= i < graph.variants_of(ty).len() && #[trigger] graph.variants_of(ty)[i] == part,
        forall|i: int|
            0 <= i < graph.variants_of(ty).len() ==> among(
                graph,
                ty,
                #[trigger] graph.variants_of(ty)[i],
            ),
        among(graph, ty, ty),
{
    assert forall|part: TypeId| #[trigger] among(graph, ty, part) implies part == ty || exists|
        i: int,
    |
        0 <= i < graph.variants_of(ty).len() && #[trigger] graph.variants_of(ty)[i] == part by {
        if part != ty {
            let i = choose|i: int|
                0 <= i < graph.variants_of(ty).len() && graph.variants_of(ty)[i] == part;
            assert(graph.variants_of(ty)[i] == part);
        }
    }
}

/// An intersection with a type parameter is an intersection of which a part that
/// is known is a type parameter.
pub proof fn law_intersections_with_type_parameters(graph: &TypeGraph, ty: TypeId)
    ensures
        intersection_with_type_param(graph, ty) <==> (graph.data_of(
            ty,
        ) matches TypeData::Intersection { types } && exists|i: int, part: TypeId|
            0 <= i < types@.len() && graph.resolved(ty, #[trigger] types@[i]) == Some(part)
                && #[trigger] graph.data_of(part) is Generic),
{
    if let TypeData::Intersection { types } = graph.data_of(ty) {
        if intersection_with_type_param(graph, ty) {
            let i = choose|i: int|
                0 <= i < types@.len() && (match graph.resolved(ty, #[trigger] types@[i]) {
                    Some(member) => graph.data_of(member) is Generic,
                    None => false,
                });
            let part = graph.resolved(ty, types@[i])->0;
            assert(graph.data_of(part) is Generic);
        }
    }
}

/// A literal of a primitive type.
pub open spec fn is_plain_literal(data: TypeData) -> bool {
    data matches TypeData::Literal(literal) && !(literal is Object) && !(literal is RegExp)
}

/// A single literal is returned exactly when there is one returned type, and it is
/// a literal that is neither an object nor a regular expression, or a union of
/// just such a one.
pub proof fn law_single_literals(graph: &TypeGraph, returned: Seq<TypeId>)
    ensures
        single_literal_return(graph, returned) <==> returned.len() == 1 && {
            ||| is_plain_literal(graph.data_of(returned[0]))
            ||| graph.data_of(returned[0]) matches TypeData::Union { variants } && variants@.len()
                == 1 && is_plain_literal(graph.data_of(variants@[0]))
        },
        returned.len() == 1 ==> single_literal_return(graph, returned) == literal_of_primitive(
            graph,
            returned[0],
        ),
{
}

/// A boolean value is returned exactly when its literal is among the returned types.
pub proof fn law_boolean_values(graph: &TypeGraph, returned: Seq<TypeId>, value: bool)
    ensures
        boolean_returned(graph, returned, value) <==> exists|i: int|
            0 <= i < returned.len() && graph.data_of(#[trigger] returned[i]) == TypeData::Literal(
                Literal::Boolean(value),
            ),
{
    if boolean_returned(graph, returned, value) {
        let i = choose|i: int|
            0 <= i < returned.len() && crate::classify::boolean_literal(
                graph,
                #[trigger] returned[i],
                value,
            );
        assert(graph.data_of(returned[i]) == TypeData::Literal(Literal::Boolean(value)));
    }
    if exists|i: int|
        0 <= i < returned.len() && graph.data_of(#[trigger] returned[i]) == TypeData::Literal(
            Literal::Boolean(value),
        ) {
        let i = choose|i: int|
            0 <= i < returned.len() && graph.data_of(#[trigger] returned[i]) == TypeData::Literal(
                Literal::Boolean(value),
            );
        assert(crate::classify::boolean_literal(graph, returned[i], value));
    }
}

/// The annotation is excused, however wide it is.
pub open spec fn excused(
    graph: &TypeGraph,
    effective: TypeId,
    returned: Seq<TypeId>,
    constant: bool,
) -> bool {
    // Nothing is returned.
    ||| returned.len() == 0
    // A single literal is widened anyway.
    ||| single_literal_return(graph, returned) && !constant && !(graph.data_of(effective) is Union)
    // `boolean` is both of its values.
    ||| graph.data_of(effective) is Boolean && boolean_returned(graph, returned, true)
        && boolean_returned(graph, returned, false)
    // What is returned is not known.
    ||| exists|i: int| 0 <= i < returned.len() && any_contaminated(graph, #[trigger] returned[i])
    // The annotation is not known.
    ||| union_with_unknown(graph, effective)
    // The annotation admits `undefined`, which is never returned.
    ||| admits_undefined(graph, effective) && forall|i: int|
        0 <= i < returned.len() ==> !admits_undefined(graph, #[trigger] returned[i])
    // A type parameter is part of what is returned.
    ||| exists|i: int|
        0 <= i < returned.len() && intersection_with_type_param(graph, #[trigger] returned[i])
    // Only literals inside of objects and tuples are widened.
    ||| !constant && only_property_widening(graph, effective, returned)
}

/// An annotation misleads exactly when it is not excused and wider than what is
/// returned: a union as a whole, and any other type wider than each returned type.
pub proof fn law_misleading_annotations(
    graph: &TypeGraph,
    effective: TypeId,
    returned: Seq<TypeId>,
    constant: bool,
)
    ensures
        excused(graph, effective, returned, constant) ==> !misleading(
            graph,
            effective,
            returned,
            constant,
        ),
        !excused(graph, effective, returned, constant) ==> misleading(
            graph,
            effective,
            returned,
            constant,
        ) == wider_than_returned(graph, effective, returned),
        graph.data_of(effective) matches TypeData::Union { variants } ==> wider_than_returned(
            graph,
            effective,
            returned,
        ) == union_wider_than_returned(graph, variants@, returned),
        !(graph.data_of(effective) is Union) ==> (wider_than_returned(graph, effective, returned)
            <==> forall|i: int|
            0 <= i < returned.len() ==> wider_than(graph, effective, #[trigger] returned[i])),
{
}

/// A type that is compared with the returned types as it stands: it is no union.
proof fn lemma_nothing_to_collapse(graph: &TypeGraph, ty: TypeId)
    requires
        !(graph.data_of(ty) is Union),
    ensures
        absorbing_primitive(graph, ty) is None,
{
    assert(forall|i: int| !absorbs_at(graph, graph.variants_of(ty), i));
}

/// A method of a class or of an object whose annotation is a primitive type, or a
/// promise of one if the method is async, is reported with that type if its body
/// returns at least two literals of it, and not both `true` and `false`.
pub proof fn law_methods_with_literals_are_reported(
    state: Option<RuleState>,
    graph: &TypeGraph,
    tree: &SyntaxTree,
    node: NodeId,
    method: MethodNode,
    annotated: TypeId,
    primitive: TypeId,
)
    requires
        node < tree.size(),
        tree.data_of(node) == NodeData::MethodClassMember(method) || tree.data_of(node)
            == NodeData::MethodObjectMember(method),
        node_reports(state, graph, tree, node),
        !method.is_generator,
        method.annotation is Some,
        method.body is Some,
        tree.data_of(node) is MethodClassMember ==> !method_overload_implementation(tree, node),
        method.member_type matches Some(ty) && return_type_of(graph, ty) == Some(annotated),
        if method.is_async {
            graph.data_of(annotated) matches TypeData::InstanceOf { ty: _, type_parameters }
                && type_parameters@.len() > 0 && graph.resolved(annotated, type_parameters@[0])
                == Some(primitive)
        } else {
            annotated == primitive
        },
        graph.data_of(primitive) is String || graph.data_of(primitive) is Number || graph.data_of(
            primitive,
        ) is Boolean || graph.data_of(primitive) is BigInt,
        ({
            let returned = types_of(
                tree,
                block_returns(tree, method.body->0, tree.size()),
            );
            &&& returned.len() >= 2
            &&& forall|i: int|
                0 <= i < returned.len() ==> base_of_literal(
                    graph,
                    primitive,
                    #[trigger] returned[i],
                )
            &&& !(boolean_returned(graph, returned, true) && boolean_returned(
                graph,
                returned,
                false,
            ))
        }),
    ensures
        state is Some,
        state->0.effective_return_ty == primitive,
        state->0.annotation_range == method.annotation->0,
        state->0.returns@ == types_of(tree, block_returns(tree, method.body->0, tree.size())),
{
    let ty = method.member_type->0;
    let expressions = block_returns(tree, method.body->0, tree.size());
    let returned = types_of(tree, expressions);
    let constant = any_const(tree, expressions);
    law_promises_hold_a_type(graph, annotated);
    lemma_nothing_to_collapse(graph, primitive);
    crate::laws::law_literals_under_primitive_are_reported(graph, primitive, returned, constant);
    law_what_is_compared(graph, ty, method.is_async, returned, constant);
    law_methods_are_judged_like_functions(state, graph, tree, node, method);
}

/// A function, a method and a getter with the same type, async flag and body are
/// reported alike: their states differ at most in where the annotation stands.
pub proof fn law_functions_and_methods_are_reported_alike(
    graph: &TypeGraph,
    tree: &SyntaxTree,
    function: NodeId,
    of_function: Option<RuleState>,
    method: NodeId,
    of_method: Option<RuleState>,
    as_function: FunctionNode,
    as_method: MethodNode,
    block: NodeId,
)
    requires
        tree.data_of(function) == NodeData::Function(as_function),
        tree.data_of(method) == NodeData::MethodClassMember(as_method) || tree.data_of(method)
            == NodeData::MethodObjectMember(as_method),
        node_reports(of_function, graph, tree, function),
        node_reports(of_method, graph, tree, method),
        !overload_implementation(tree, function),
        !(tree.data_of(method) is MethodClassMember && method_overload_implementation(
            tree,
            method,
        )),
        as_function.is_generator == as_method.is_generator,
        as_function.is_async == as_method.is_async,
        as_function.annotation is Some,
        as_method.annotation is Some,
        as_method.member_type == Some(as_function.ty),
        as_function.body == Some(FunctionBody::Block(block)),
        as_method.body == Some(block),
    ensures
        of_function is Some <==> of_method is Some,
        of_function matches Some(first) ==> {
            &&& first.returns@ == of_method->0.returns@
            &&& first.effective_return_ty == of_method->0.effective_return_ty
            &&& first.has_any_const_return == of_method->0.has_any_const_return
        },
{
    law_functions_are_judged(of_function, graph, tree, function, as_function);
    law_methods_are_judged_like_functions(of_method, graph, tree, method, as_method);
}

/// An annotated union with a variant, of whatever kind, that neither matches nor is
/// wider than any returned type misleads, if it admits all of them and is not
/// excused.
pub proof fn law_unreached_variants_mislead(
    graph: &TypeGraph,
    effective: TypeId,
    variants: Vec<TypeId>,
    returned: Seq<TypeId>,
    constant: bool,
    at: int,
)
    requires
        graph.data_of(effective) == (TypeData::Union { variants }),
        !excused(graph, effective, returned, constant),
        all_admitted(graph, variants@, returned),
        0 <= at < variants@.len(),
        admits_none(graph, variants@[at], returned),
    ensures
        misleading(graph, effective, returned, constant),
{
    law_misleading_annotations(graph, effective, returned, constant);
    law_unions_wider_than_what_is_returned(graph, variants@, returned);
    assert(some_admits_none(graph, variants@, returned));
}

} // verus!

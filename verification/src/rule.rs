//! The rule: which functions have a misleading return type annotation, and
//! what is said about it.
use crate::classify::{
    admits_undefined, any_contaminated, boolean_returned, escape_hatch, extract_return_type,
    includes_undefined, intersection_with_type_param, is_any_contaminated, is_escape_hatch,
    is_intersection_with_type_param, is_single_literal_primitive_return, is_union_with_unknown,
    promise_unwrapped, return_type_of, returns_boolean, single_literal_return, union_with_unknown,
    unwrap_promise_inner,
};
use crate::describe::{
    can_render_inferred, can_render_narrowed, inferred_renderable, inferred_text,
    narrowed_renderable, narrowed_text, write_inferred, write_narrowed,
};
use crate::property::{is_only_property_literal_widening, only_property_widening};
use crate::returned::{
    any_const, body_returns, collect_return_info, lemma_body_types_in_range, types_of,
};
use crate::syntax::{
    FunctionBody, FunctionNode, GetterNode, MethodNode, NodeData, NodeId, SyntaxTree,
};
use crate::types::{ids_in_range, TypeData, TypeGraph, TypeId};
use crate::union::{
    absorbing_primitive, collapse_union_absorbed_by_primitive, is_union_wider_than_returns,
    is_wider_than, union_wider_than_returned, wider_than,
};
use biome_rowan::TextRange;
use vstd::prelude::*;

verus! {

/// A misleading return type annotation.
#[derive(Debug)]
pub struct RuleState {
    /// Where the annotation stands.
    pub annotation_range: TextRange,
    /// The types of the returned expressions.
    pub returns: Vec<TypeId>,
    /// The annotated type that they are compared with.
    pub effective_return_ty: TypeId,
    /// Whether `as const` is used for some returned expression.
    pub has_any_const_return: bool,
}

/// How the suggested return type is built.
#[derive(Debug, Clone, Copy, PartialEq, Eq, Structural)]
pub enum DescriptionKind {
    /// Built from the actual return values (e.g. `"loading" | "idle"`).
    Inferred,
    /// Built by narrowing the annotation's union to its covered variants.
    Narrowed,
}

/// What is said about a misleading return type annotation.
#[derive(Debug)]
pub struct Diagnostic {
    pub range: TextRange,
    pub title: String,
    pub notes: Vec<String>,
}

impl RuleState {
    /// The types of the state are types of the graph.
    pub open spec fn well_formed(&self, graph: &TypeGraph) -> bool {
        ids_in_range(self.returns@, graph.size()) && self.effective_return_ty < graph.size()
    }

    /// The suggestion to render, if there is one: returned literals are
    /// preferred where `as const` is used, and the narrowed annotation elsewhere.
    pub open spec fn suggestion(&self, graph: &TypeGraph) -> Option<DescriptionKind> {
        if !self.has_any_const_return && narrowed_renderable(
            graph,
            self.effective_return_ty,
            self.returns@,
        ) {
            Some(DescriptionKind::Narrowed)
        } else if inferred_renderable(graph, self.returns@) {
            Some(DescriptionKind::Inferred)
        } else {
            None
        }
    }

    /// The suggested return type, and nothing if there is no suggestion.
    pub open spec fn suggestion_text(&self, graph: &TypeGraph) -> Seq<char> {
        match self.suggestion(graph) {
            Some(DescriptionKind::Inferred) => inferred_text(graph, self.returns@),
            Some(DescriptionKind::Narrowed) => narrowed_text(
                graph,
                self.effective_return_ty,
                self.returns@,
            ),
            None => Seq::empty(),
        }
    }

    /// Returns the suggestion kind to render, or `None` to fall back to the
    /// generic note.
    pub fn description_kind(&self, graph: &TypeGraph) -> (kind: Option<DescriptionKind>)
        requires
            graph.well_formed(),
            self.well_formed(graph),
        ensures
            kind == self.suggestion(graph),
    {
        if self.has_any_const_return {
            return if can_render_inferred(graph, &self.returns) {
                Some(DescriptionKind::Inferred)
            } else {
                None
            };
        }
        if can_render_narrowed(graph, self.effective_return_ty, &self.returns) {
            return Some(DescriptionKind::Narrowed);
        }
        if can_render_inferred(graph, &self.returns) {
            Some(DescriptionKind::Inferred)
        } else {
            None
        }
    }

    /// Writes the suggested return type, and nothing if there is no suggestion.
    pub fn fmt(&self, graph: &TypeGraph, out: &mut String)
        requires
            graph.well_formed(),
            self.well_formed(graph),
        ensures
            final(out)@ == old(out)@ + self.suggestion_text(graph),
    {
        match self.description_kind(graph) {
            Some(DescriptionKind::Inferred) => write_inferred(graph, out, &self.returns),
            Some(DescriptionKind::Narrowed) => {
                write_narrowed(graph, out, self.effective_return_ty, &self.returns)
            },
            None => {
                assert(out@ =~= out@ + Seq::<char>::empty());
            },
        }
    }
}

/// The annotated type that returned expressions are compared with: the type
/// inside the promise of an async function, where `"a" | "b" | string` is `string`.
pub open spec fn effective_type(graph: &TypeGraph, return_ty: TypeId, is_async: bool) -> TypeId {
    let inner = if is_async {
        promise_unwrapped(graph, return_ty)
    } else {
        return_ty
    };
    match absorbing_primitive(graph, inner) {
        Some(primitive) => primitive,
        None => inner,
    }
}

/// The annotated type is wider than what is returned.
pub open spec fn wider_than_returned(
    graph: &TypeGraph,
    effective: TypeId,
    returned: Seq<TypeId>,
) -> bool {
    if graph.union_type(effective) {
        union_wider_than_returned(graph, graph.variants_of(effective), returned)
    } else {
        forall|i: int|
            0 <= i < returned.len() ==> wider_than(graph, effective, #[trigger] returned[i])
    }
}

/// The annotated type misleads about what is returned.
pub open spec fn misleading(
    graph: &TypeGraph,
    effective: TypeId,
    returned: Seq<TypeId>,
    has_any_const: bool,
) -> bool {
    // Something is returned, and not just one literal, which is widened anyway.
    &&& returned.len() > 0
    &&& !single_literal_return(graph, returned) || has_any_const || graph.union_type(effective)
    // `boolean` is no wider than both of its values.
    &&& !(graph.data_of(effective) is Boolean && boolean_returned(graph, returned, true)
        && boolean_returned(graph, returned, false))
    // No part of the comparison is unknown.
    &&& forall|i: int|
        0 <= i < returned.len() ==> !any_contaminated(graph, #[trigger] returned[i])
    &&& !union_with_unknown(graph, effective)
    // An `undefined` in the annotation is for callers, unless it is returned.
    &&& admits_undefined(graph, effective) ==> exists|i: int|
        0 <= i < returned.len() && admits_undefined(graph, #[trigger] returned[i])
    &&& forall|i: int|
        0 <= i < returned.len() ==> !intersection_with_type_param(graph, #[trigger] returned[i])
    // Literals in properties are widened anyway.
    &&& has_any_const || !only_property_widening(graph, effective, returned)
    &&& wider_than_returned(graph, effective, returned)
}

/// The annotated type to report for a function of this type that returns these
/// types, if it is to be reported.
pub open spec fn reported_type(
    graph: &TypeGraph,
    func_type: TypeId,
    is_async: bool,
    returned: Seq<TypeId>,
    has_any_const: bool,
) -> Option<TypeId> {
    match return_type_of(graph, func_type) {
        Some(return_ty) => {
            let effective = effective_type(graph, return_ty, is_async);
            if !escape_hatch(graph, return_ty) && misleading(
                graph,
                effective,
                returned,
                has_any_const,
            ) {
                Some(effective)
            } else {
                None
            }
        },
        None => None,
    }
}

/// The state is what is to be reported for a function with this annotation,
/// type and body.
pub open spec fn reports(
    state: Option<RuleState>,
    graph: &TypeGraph,
    tree: &SyntaxTree,
    annotation_range: TextRange,
    func_type: TypeId,
    is_async: bool,
    body: FunctionBody,
) -> bool {
    let expressions = body_returns(tree, body);
    let returned = types_of(tree, expressions);
    let has_any_const = any_const(tree, expressions);
    match reported_type(graph, func_type, is_async, returned, has_any_const) {
        Some(effective) => match state {
            Some(found) => {
                &&& found.annotation_range == annotation_range
                &&& found.returns@ == returned
                &&& found.effective_return_ty == effective
                &&& found.has_any_const_return == has_any_const
            },
            None => false,
        },
        None => state is None,
    }
}

fn any_return_contaminated(graph: &TypeGraph, returned: &Vec<TypeId>) -> (found: bool)
    requires
        graph.well_formed(),
        ids_in_range(returned@, graph.size()),
    ensures
        found == exists|i: int|
            0 <= i < returned@.len() && any_contaminated(graph, #[trigger] returned@[i]),
{
    let mut i: usize = 0;
    while i < returned.len()
        invariant
            graph.well_formed(),
            ids_in_range(returned@, graph.size()),
            i <= returned@.len(),
            forall|j: int| 0 <= j < i ==> !any_contaminated(graph, #[trigger] returned@[j]),
        decreases returned@.len() - i,
    {
        if is_any_contaminated(graph, returned[i]) {
            assert(any_contaminated(graph, returned@[i as int]));
            return true;
        }
        i = i + 1;
    }
    false
}

fn any_return_undefined(graph: &TypeGraph, returned: &Vec<TypeId>) -> (found: bool)
    requires
        graph.well_formed(),
        ids_in_range(returned@, graph.size()),
    ensures
        found == exists|i: int|
            0 <= i < returned@.len() && admits_undefined(graph, #[trigger] returned@[i]),
{
    let mut i: usize = 0;
    while i < returned.len()
        invariant
            graph.well_formed(),
            ids_in_range(returned@, graph.size()),
            i <= returned@.len(),
            forall|j: int| 0 <= j < i ==> !admits_undefined(graph, #[trigger] returned@[j]),
        decreases returned@.len() - i,
    {
        if includes_undefined(graph, returned[i]) {
            assert(admits_undefined(graph, returned@[i as int]));
            return true;
        }
        i = i + 1;
    }
    false
}

fn any_return_with_type_param(graph: &TypeGraph, returned: &Vec<TypeId>) -> (found: bool)
    requires
        graph.well_formed(),
        ids_in_range(returned@, graph.size()),
    ensures
        found == exists|i: int|
            0 <= i < returned@.len() && intersection_with_type_param(
                graph,
                #[trigger] returned@[i],
            ),
{
    let mut i: usize = 0;
    while i < returned.len()
        invariant
            graph.well_formed(),
            ids_in_range(returned@, graph.size()),
            i <= returned@.len(),
            forall|j: int|
                0 <= j < i ==> !intersection_with_type_param(graph, #[trigger] returned@[j]),
        decreases returned@.len() - i,
    {
        if is_intersection_with_type_param(graph, returned[i]) {
            assert(intersection_with_type_param(graph, returned@[i as int]));
            return true;
        }
        i = i + 1;
    }
    false
}

fn is_wider_than_returned(graph: &TypeGraph, effective: TypeId, returned: &Vec<TypeId>) -> (wider:
    bool)
    requires
        graph.well_formed(),
        effective < graph.size(),
        ids_in_range(returned@, graph.size()),
    ensures
        wider == wider_than_returned(graph, effective, returned@),
{
    if graph.is_union(effective) {
        return is_union_wider_than_returns(graph, effective, returned);
    }
    let mut i: usize = 0;
    while i < returned.len()
        invariant
            graph.well_formed(),
            effective < graph.size(),
            ids_in_range(returned@, graph.size()),
            !graph.union_type(effective),
            i <= returned@.len(),
            forall|j: int| 0 <= j < i ==> wider_than(graph, effective, #[trigger] returned@[j]),
        decreases returned@.len() - i,
    {
        if !is_wider_than(graph, effective, returned[i]) {
            assert(!wider_than(graph, effective, returned@[i as int]));
            return false;
        }
        i = i + 1;
    }
    true
}

/// Whether the annotated type misleads about what is returned.
pub fn is_misleading(
    graph: &TypeGraph,
    effective: TypeId,
    returned: &Vec<TypeId>,
    has_any_const: bool,
) -> (found: bool)
    requires
        graph.well_formed(),
        effective < graph.size(),
        ids_in_range(returned@, graph.size()),
    ensures
        found == misleading(graph, effective, returned@, has_any_const),
{
    if returned.len() == 0 {
        return false;
    }
    if is_single_literal_primitive_return(graph, returned) && !has_any_const && !graph.is_union(
        effective,
    ) {
        return false;
    }
    if matches!(graph.data(effective), TypeData::Boolean) && returns_boolean(graph, returned, true)
        && returns_boolean(graph, returned, false) {
        return false;
    }
    if any_return_contaminated(graph, returned) {
        return false;
    }
    if is_union_with_unknown(graph, effective) {
        return false;
    }
    if includes_undefined(graph, effective) && !any_return_undefined(graph, returned) {
        return false;
    }
    if any_return_with_type_param(graph, returned) {
        return false;
    }
    if !has_any_const && is_only_property_literal_widening(graph, effective, returned) {
        return false;
    }
    is_wider_than_returned(graph, effective, returned)
}

/// The annotated type to report for a function of this type that returns these
/// types, if it is to be reported.
pub fn find_reported_type(
    graph: &TypeGraph,
    func_type: TypeId,
    is_async: bool,
    returned: &Vec<TypeId>,
    has_any_const: bool,
) -> (found: Option<TypeId>)
    requires
        graph.well_formed(),
        func_type < graph.size(),
        ids_in_range(returned@, graph.size()),
    ensures
        found == reported_type(graph, func_type, is_async, returned@, has_any_const),
        found matches Some(effective) ==> effective < graph.size(),
{
    let return_ty = match extract_return_type(graph, func_type) {
        Some(return_ty) => return_ty,
        None => {
            return None;
        },
    };
    if is_escape_hatch(graph, return_ty) {
        return None;
    }
    let inner = if is_async {
        unwrap_promise_inner(graph, return_ty)
    } else {
        return_ty
    };
    let effective = match collapse_union_absorbed_by_primitive(graph, inner) {
        Some(primitive) => primitive,
        None => inner,
    };
    if is_misleading(graph, effective, returned, has_any_const) {
        Some(effective)
    } else {
        None
    }
}

/// Compares the annotation of a function, method or getter with what its body returns.
pub fn run_for_member_with_body(
    graph: &TypeGraph,
    tree: &SyntaxTree,
    annotation_range: TextRange,
    func_type: TypeId,
    is_async: bool,
    body: &FunctionBody,
) -> (state: Option<RuleState>)
    requires
        graph.well_formed(),
        tree.well_formed(),
        tree.typed_within(graph.size()),
        func_type < graph.size(),
        tree.body_in_range(*body),
    ensures
        reports(state, graph, tree, annotation_range, func_type, is_async, *body),
        state matches Some(found) ==> found.well_formed(graph),
{
    proof {
        lemma_body_types_in_range(tree, *body, graph.size());
    }
    let (returned, has_any_const_return) = collect_return_info(tree, body);
    match find_reported_type(graph, func_type, is_async, &returned, has_any_const_return) {
        Some(effective_return_ty) => Some(
            RuleState {
                annotation_range,
                returns: returned,
                effective_return_ty,
                has_any_const_return,
            },
        ),
        None => None,
    }
}

/// Compares the annotation of a method or getter with what its body returns.
pub fn run_for_member(
    graph: &TypeGraph,
    tree: &SyntaxTree,
    annotation_range: TextRange,
    func_type: TypeId,
    is_async: bool,
    body: NodeId,
) -> (state: Option<RuleState>)
    requires
        graph.well_formed(),
        tree.well_formed(),
        tree.typed_within(graph.size()),
        func_type < graph.size(),
        body < tree.size(),
    ensures
        reports(
            state,
            graph,
            tree,
            annotation_range,
            func_type,
            is_async,
            FunctionBody::Block(body),
        ),
        state matches Some(found) ==> found.well_formed(graph),
{
    run_for_member_with_body(
        graph,
        tree,
        annotation_range,
        func_type,
        is_async,
        &FunctionBody::Block(body),
    )
}

/// A name that both have.
pub open spec fn same_name(a: Option<String>, b: Option<String>) -> bool {
    match (a, b) {
        (Some(x), Some(y)) => x@ == y@,
        _ => false,
    }
}

fn names_equal(a: &Option<String>, b: &Option<String>) -> (equal: bool)
    ensures
        equal == same_name(*a, *b),
{
    match (a, b) {
        (Some(x), Some(y)) => *x == *y,
        _ => false,
    }
}

/// A function of this name that has no body, as overload signatures have none.
pub open spec fn overload_signature(data: NodeData, name: Option<String>) -> bool {
    match data {
        NodeData::DeclareFunction { name: found } => same_name(found, name),
        NodeData::Function(function) => function.body is None && same_name(function.name, name),
        _ => false,
    }
}

/// `sibling` is another node with the same parent as `node`.
pub open spec fn siblings(tree: &SyntaxTree, node: NodeId, sibling: NodeId) -> bool {
    &&& sibling < tree.size()
    &&& sibling != node
    &&& tree.parent_of(node) is Some
    &&& tree.parent_of(sibling) == tree.parent_of(node)
}

/// The name of a function, if it has one.
pub open spec fn function_name(tree: &SyntaxTree, node: NodeId) -> Option<String> {
    match tree.data_of(node) {
        NodeData::Function(function) => function.name,
        _ => None,
    }
}

/// The function is the implementation of overloads: next to it stands a
/// function of the same name without a body.
pub open spec fn overload_implementation(tree: &SyntaxTree, node: NodeId) -> bool {
    exists|sibling: NodeId| #[trigger]
        siblings(tree, node, sibling) && overload_signature(
            tree.data_of(sibling),
            function_name(tree, node),
        )
}

/// Looks for sibling function declarations with the same name but no body,
/// which indicates this function is the implementation of an overload set.
pub fn is_overload_implementation(tree: &SyntaxTree, node: NodeId) -> (found: bool)
    requires
        node < tree.size(),
    ensures
        found == overload_implementation(tree, node),
{
    let name = match tree.data(node) {
        NodeData::Function(function) => &function.name,
        _ => {
            return false;
        },
    };
    let parent = match tree.nodes[node].parent {
        Some(parent) => parent,
        None => {
            return false;
        },
    };
    let mut i: usize = 0;
    while i < tree.nodes.len()
        invariant
            node < tree.size(),
            tree.parent_of(node) == Some(parent),
            function_name(tree, node) == *name,
            i <= tree.nodes@.len(),
            forall|j: NodeId|
                j < i && #[trigger] siblings(tree, node, j) ==> !overload_signature(
                    tree.data_of(j),
                    *name,
                ),
        decreases tree.nodes@.len() - i,
    {
        let sibling = i != node && match tree.nodes[i].parent {
            Some(other) => other == parent,
            None => false,
        };
        assert(sibling == siblings(tree, node, i));
        if sibling {
            let signature = match tree.data(i) {
                NodeData::DeclareFunction { name: found } => names_equal(found, name),
                NodeData::Function(function) => {
                    function.body.is_none() && names_equal(&function.name, name)
                },
                _ => false,
            };
            assert(signature == overload_signature(tree.data_of(i), *name));
            if signature {
                return true;
            }
        }
        i = i + 1;
    }
    false
}

/// A method signature with this name.
pub open spec fn method_signature(data: NodeData, name: Option<String>) -> bool {
    match data {
        NodeData::MethodSignature { name_token } => same_name(name_token, name),
        _ => false,
    }
}

/// The source text of the name of a method of a class, if it is a literal name.
pub open spec fn method_name(tree: &SyntaxTree, node: NodeId) -> Option<String> {
    match tree.data_of(node) {
        NodeData::MethodClassMember(method) => method.name_token,
        _ => None,
    }
}

/// The method is the implementation of overloads: next to it stands a
/// signature of the same name.
pub open spec fn method_overload_implementation(tree: &SyntaxTree, node: NodeId) -> bool {
    exists|sibling: NodeId| #[trigger]
        siblings(tree, node, sibling) && method_signature(
            tree.data_of(sibling),
            method_name(tree, node),
        )
}

/// Looks for signatures with the same name in the class, which indicates this
/// method is the implementation of an overload set.
pub fn is_class_method_overload_implementation(tree: &SyntaxTree, node: NodeId) -> (found: bool)
    requires
        node < tree.size(),
    ensures
        found == method_overload_implementation(tree, node),
{
    let name = match tree.data(node) {
        NodeData::MethodClassMember(method) => &method.name_token,
        _ => {
            return false;
        },
    };
    let parent = match tree.nodes[node].parent {
        Some(parent) => parent,
        None => {
            return false;
        },
    };
    let mut i: usize = 0;
    while i < tree.nodes.len()
        invariant
            node < tree.size(),
            tree.data_of(node) is MethodClassMember,
            tree.parent_of(node) == Some(parent),
            method_name(tree, node) == *name,
            i <= tree.nodes@.len(),
            forall|j: NodeId|
                j < i && #[trigger] siblings(tree, node, j) ==> !method_signature(
                    tree.data_of(j),
                    *name,
                ),
        decreases tree.nodes@.len() - i,
    {
        if let NodeData::MethodSignature { name_token } = tree.data(i) {
            let sibling = match tree.nodes[i].parent {
                Some(other) => other == parent,
                None => false,
            };
            assert(sibling == siblings(tree, node, i));
            if sibling && names_equal(name_token, name) {
                return true;
            }
        }
        i = i + 1;
    }
    false
}

/// What is to be reported for a function.
pub open spec fn function_reports(
    state: Option<RuleState>,
    graph: &TypeGraph,
    tree: &SyntaxTree,
    node: NodeId,
    function: FunctionNode,
) -> bool {
    match (function.annotation, function.body) {
        (Some(annotation_range), Some(body)) => if function.is_generator
            || overload_implementation(tree, node) {
            state is None
        } else {
            reports(
                state,
                graph,
                tree,
                annotation_range,
                function.ty,
                function.is_async,
                body,
            )
        },
        _ => state is None,
    }
}

/// What is to be reported for a method, unless it implements overloads.
pub open spec fn method_reports(
    state: Option<RuleState>,
    graph: &TypeGraph,
    tree: &SyntaxTree,
    method: MethodNode,
) -> bool {
    match (method.annotation, method.member_type, method.body) {
        (Some(annotation_range), Some(ty), Some(body)) => if method.is_generator {
            state is None
        } else {
            reports(
                state,
                graph,
                tree,
                annotation_range,
                ty,
                method.is_async,
                FunctionBody::Block(body),
            )
        },
        _ => state is None,
    }
}

/// What is to be reported for a getter: nothing if a setter has the same name.
pub open spec fn getter_reports(
    state: Option<RuleState>,
    graph: &TypeGraph,
    tree: &SyntaxTree,
    getter: GetterNode,
) -> bool {
    match (getter.annotation, getter.member, getter.body) {
        (Some(annotation_range), Some(member), Some(body)) => if member.has_matching_setter {
            state is None
        } else {
            reports(
                state,
                graph,
                tree,
                annotation_range,
                member.ty,
                false,
                FunctionBody::Block(body),
            )
        },
        _ => state is None,
    }
}

/// What is to be reported for a node.
pub open spec fn node_reports(
    state: Option<RuleState>,
    graph: &TypeGraph,
    tree: &SyntaxTree,
    node: NodeId,
) -> bool {
    match tree.data_of(node) {
        NodeData::Function(function) => function_reports(state, graph, tree, node, function),
        NodeData::MethodClassMember(method) => if method_overload_implementation(tree, node) {
            state is None
        } else {
            method_reports(state, graph, tree, method)
        },
        NodeData::MethodObjectMember(method) => method_reports(state, graph, tree, method),
        NodeData::GetterClassMember(getter) => getter_reports(state, graph, tree, getter),
        NodeData::GetterObjectMember(getter) => getter_reports(state, graph, tree, getter),
        _ => state is None,
    }
}

/// Checks a function. Nothing is to be reported for any other node here.
pub fn run_for_function(graph: &TypeGraph, tree: &SyntaxTree, node: NodeId) -> (state: Option<
    RuleState,
>)
    requires
        graph.well_formed(),
        tree.well_formed(),
        tree.typed_within(graph.size()),
        node < tree.size(),
    ensures
        match tree.data_of(node) {
            NodeData::Function(function) => function_reports(state, graph, tree, node, function),
            _ => state is None,
        },
        state matches Some(found) ==> found.well_formed(graph),
{
    assert(tree.node_well_formed(node));
    assert(tree.node_typed_within(node, graph.size()));
    let function = match tree.data(node) {
        NodeData::Function(function) => function,
        _ => {
            return None;
        },
    };
    let annotation_range = match function.annotation {
        Some(annotation_range) => annotation_range,
        None => {
            return None;
        },
    };
    if function.is_generator || is_overload_implementation(tree, node) {
        return None;
    }
    match &function.body {
        Some(body) => run_for_member_with_body(
            graph,
            tree,
            annotation_range,
            function.ty,
            function.is_async,
            body,
        ),
        None => None,
    }
}

fn run_for_method(
    graph: &TypeGraph,
    tree: &SyntaxTree,
    node: NodeId,
    method: &MethodNode,
) -> (state: Option<RuleState>)
    requires
        graph.well_formed(),
        tree.well_formed(),
        tree.typed_within(graph.size()),
        node < tree.size(),
        tree.data_of(node) == NodeData::MethodClassMember(*method) || tree.data_of(node)
            == NodeData::MethodObjectMember(*method),
    ensures
        method_reports(state, graph, tree, *method),
        state matches Some(found) ==> found.well_formed(graph),
{
    assert(tree.node_well_formed(node));
    assert(tree.node_typed_within(node, graph.size()));
    if method.is_generator {
        return None;
    }
    match (method.annotation, method.member_type, method.body) {
        (Some(annotation_range), Some(ty), Some(body)) => run_for_member(
            graph,
            tree,
            annotation_range,
            ty,
            method.is_async,
            body,
        ),
        _ => None,
    }
}

fn run_for_getter(
    graph: &TypeGraph,
    tree: &SyntaxTree,
    node: NodeId,
    getter: &GetterNode,
) -> (state: Option<RuleState>)
    requires
        graph.well_formed(),
        tree.well_formed(),
        tree.typed_within(graph.size()),
        node < tree.size(),
        tree.data_of(node) == NodeData::GetterClassMember(*getter) || tree.data_of(node)
            == NodeData::GetterObjectMember(*getter),
    ensures
        getter_reports(state, graph, tree, *getter),
        state matches Some(found) ==> found.well_formed(graph),
{
    assert(tree.node_well_formed(node));
    assert(tree.node_typed_within(node, graph.size()));
    match (getter.annotation, &getter.member, getter.body) {
        (Some(annotation_range), Some(member), Some(body)) => {
            if member.has_matching_setter {
                return None;
            }
            run_for_member(graph, tree, annotation_range, member.ty, false, body)
        },
        _ => None,
    }
}

/// Checks a function, method or getter.
pub fn run(graph: &TypeGraph, tree: &SyntaxTree, node: NodeId) -> (state: Option<RuleState>)
    requires
        graph.well_formed(),
        tree.well_formed(),
        tree.typed_within(graph.size()),
        node < tree.size(),
    ensures
        node_reports(state, graph, tree, node),
        state matches Some(found) ==> found.well_formed(graph),
{
    match tree.data(node) {
        NodeData::Function(_) => run_for_function(graph, tree, node),
        NodeData::MethodClassMember(method) => {
            if is_class_method_overload_implementation(tree, node) {
                return None;
            }
            run_for_method(graph, tree, node, method)
        },
        NodeData::MethodObjectMember(method) => run_for_method(graph, tree, node, method),
        NodeData::GetterClassMember(getter) => run_for_getter(graph, tree, node, getter),
        NodeData::GetterObjectMember(getter) => run_for_getter(graph, tree, node, getter),
        _ => None,
    }
}

/// The last note of a diagnostic: the suggestion, or a generic note.
pub open spec fn advice(graph: &TypeGraph, state: RuleState) -> Seq<char> {
    if state.suggestion(graph) is Some {
        "Consider using "@ + state.suggestion_text(graph) + " as the return type."@
    } else {
        "Narrow the return type to match what the function actually returns."@
    }
}

/// What is said about a misleading return type annotation.
pub fn diagnostic(graph: &TypeGraph, state: &RuleState) -> (diag: Diagnostic)
    requires
        graph.well_formed(),
        state.well_formed(graph),
    ensures
        diag.range == state.annotation_range,
        diag.title@
            == "The return type annotation is wider than what the function actually returns."@,
        diag.notes@.len() == 2,
        diag.notes@[0]@
            == "A wider return type hides the precise types that callers could rely on."@,
        diag.notes@[1]@ == advice(graph, *state),
{
    let title = "The return type annotation is wider than what the function actually returns."
        .to_owned();
    let mut notes: Vec<String> = Vec::new();
    notes.push(
        "A wider return type hides the precise types that callers could rely on.".to_owned(),
    );
    let note = if state.description_kind(graph).is_some() {
        let mut note: String = "Consider using ".to_owned();
        state.fmt(graph, &mut note);
        note.append(" as the return type.");
        note
    } else {
        "Narrow the return type to match what the function actually returns.".to_owned()
    };
    notes.push(note);
    Diagnostic { range: state.annotation_range, title, notes }
}

} // verus!

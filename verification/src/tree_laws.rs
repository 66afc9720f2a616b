//! What holds of the returned expressions of a function, in terms of the syntax
//! tree alone.
use crate::returned::{
    any_const, belongs_to_block, block_returns, body_declarators, body_returns, const_asserted,
    declarators_among, declarators_around, directly_const, enclosing_body, first_settling,
    identifier_const, initializer_type, innermost, nested_function, return_argument,
    returned_type, types_of,
};
use crate::syntax::{
    EntityName, FunctionBody, FunctionKind, NodeData, NodeId, SyntaxTree, TsType,
};
use crate::types::TypeId;
use vstd::prelude::*;

verus! {

/// Every node of the path but the first is a child of the node before it.
pub open spec fn descends(tree: &SyntaxTree, path: Seq<NodeId>) -> bool {
    &&& path.len() > 0
    &&& path.last() < tree.size()
    &&& forall|i: int|
        0 < i < path.len() ==> tree.parent_of(#[trigger] path[i]) == Some(path[i - 1])
}

/// A function or member whose return statements are its own.
pub open spec fn has_own_returns(data: NodeData) -> bool {
    ||| data is ConstructorClassMember
    ||| data is MethodClassMember
    ||| data is MethodObjectMember
    ||| data is GetterClassMember
    ||| data is GetterObjectMember
    ||| data is SetterClassMember
    ||| data is SetterObjectMember
    ||| data matches NodeData::Function(function) && !(function.kind
        is ExportDefaultDeclaration)
}

/// The path leads from one node to another without passing into a function.
pub open spec fn stays_outside_functions(
    tree: &SyntaxTree,
    from: NodeId,
    to: NodeId,
    path: Seq<NodeId>,
) -> bool {
    &&& descends(tree, path)
    &&& path[0] == from
    &&& path.last() == to
    &&& forall|i: int| 0 < i < path.len() ==> !has_own_returns(tree.data_of(#[trigger] path[i]))
}

/// Nested functions are function declarations, function expressions and arrow
/// functions, and the constructors, methods, getters and setters of classes and
/// objects.
pub proof fn law_nested_functions(data: NodeData)
    ensures
        nested_function(data) == has_own_returns(data),
        forall|function: crate::syntax::FunctionNode|
            data == NodeData::Function(function) ==> (nested_function(data) <==> {
                ||| #[trigger] function.kind == FunctionKind::Declaration
                ||| function.kind == FunctionKind::Expression
                ||| function.kind == FunctionKind::Arrow
            }),
        data is FunctionBody || data is ReturnStatement || data is VariableStatement
            || data is VariableDeclarator || data is AsExpression || data is SatisfiesExpression
            || data is TypeAssertionExpression || data is ParenthesizedExpression
            || data is IdentifierExpression || data is Other || data is DeclareFunction
            || data is MethodSignature ==> !nested_function(data),
{
}

proof fn lemma_path_in_range(tree: &SyntaxTree, path: Seq<NodeId>, at: int)
    requires
        tree.well_formed(),
        descends(tree, path),
        0 <= at < path.len(),
    ensures
        path[at] < tree.size(),
        path[at] <= path.last(),
        at < path.len() - 1 ==> path[at] < path.last(),
    decreases path.len() - at,
{
    if at < path.len() - 1 {
        lemma_path_in_range(tree, path, at + 1);
        assert(tree.node_well_formed(path[at + 1]));
        assert(tree.parent_of(path[at + 1]) == Some(path[at]));
    }
}

/// A node at any depth below a block belongs to the block exactly when no node
/// on the way to it, nor the node itself, is a function.
pub proof fn law_block_owns_its_descendants(tree: &SyntaxTree, block: NodeId, path: Seq<NodeId>)
    requires
        tree.well_formed(),
        descends(tree, path),
        path[0] == block,
    ensures
        belongs_to_block(tree, block, path.last()) <==> forall|i: int|
            0 < i < path.len() ==> !has_own_returns(tree.data_of(#[trigger] path[i])),
    decreases path.len(),
{
    let node = path.last();
    lemma_path_in_range(tree, path, 0);
    if path.len() > 1 {
        let rest = path.drop_last();
        assert(tree.parent_of(path[path.len() - 1]) == Some(path[path.len() - 2]));
        lemma_path_in_range(tree, path, path.len() - 2);
        assert forall|i: int| 0 < i < rest.len() implies tree.parent_of(#[trigger] rest[i]) == Some(
            rest[i - 1],
        ) by {
            assert(tree.parent_of(path[i]) == Some(path[i - 1]));
        }
        law_block_owns_its_descendants(tree, block, rest);
        if forall|i: int|
            0 < i < path.len() ==> !has_own_returns(tree.data_of(#[trigger] path[i])) {
            assert(!has_own_returns(tree.data_of(path[path.len() - 1])));
            assert forall|i: int| 0 < i < rest.len() implies !has_own_returns(
                tree.data_of(#[trigger] rest[i]),
            ) by {
                assert(rest[i] == path[i]);
            }
        }
        if belongs_to_block(tree, block, node) {
            assert forall|i: int| 0 < i < path.len() implies !has_own_returns(
                tree.data_of(#[trigger] path[i]),
            ) by {
                if i < rest.len() {
                    assert(rest[i] == path[i]);
                }
            }
        }
    }
}

/// What belongs to a block stands in it: a path leads to it that does not pass
/// into a function.
pub proof fn law_what_belongs_to_a_block_stands_in_it(
    tree: &SyntaxTree,
    block: NodeId,
    node: NodeId,
) -> (path: Seq<NodeId>)
    requires
        tree.well_formed(),
        node < tree.size(),
        belongs_to_block(tree, block, node),
    ensures
        stays_outside_functions(tree, block, node, path),
    decreases node,
{
    if node == block {
        seq![node]
    } else {
        assert(tree.node_well_formed(node));
        let parent = tree.parent_of(node)->0;
        let before = law_what_belongs_to_a_block_stands_in_it(tree, block, parent);
        let path = before.push(node);
        assert forall|i: int| 0 < i < path.len() implies tree.parent_of(#[trigger] path[i]) == Some(
            path[i - 1],
        ) && !has_own_returns(tree.data_of(path[i])) by {
            if i < before.len() {
                assert(path[i] == before[i]);
            }
        }
        assert(path[0] == before[0]);
        path
    }
}

/// The node is a return statement with this argument, which stands in the block
/// at any depth, but not in a function nested there.
pub open spec fn returns_from(
    tree: &SyntaxTree,
    block: NodeId,
    node: NodeId,
    argument: NodeId,
) -> bool {
    &&& node < tree.size()
    &&& tree.data_of(node) == (NodeData::ReturnStatement { argument: Some(argument) })
    &&& tree.is_expression(argument)
    &&& exists|path: Seq<NodeId>| stays_outside_functions(tree, block, node, path)
}

/// The return statements of a block among the first `count` nodes, in order.
spec fn returning_nodes(tree: &SyntaxTree, block: NodeId, count: nat) -> Seq<NodeId>
    decreases count,
{
    if count == 0 {
        Seq::empty()
    } else {
        let before = returning_nodes(tree, block, (count - 1) as nat);
        if return_argument(tree, block, (count - 1) as usize) is Some {
            before.push((count - 1) as usize)
        } else {
            before
        }
    }
}

proof fn lemma_return_argument(tree: &SyntaxTree, block: NodeId, node: NodeId, argument: NodeId)
    requires
        tree.well_formed(),
        node < tree.size(),
    ensures
        return_argument(tree, block, node) == Some(argument) <==> returns_from(
            tree,
            block,
            node,
            argument,
        ),
{
    if return_argument(tree, block, node) == Some(argument) {
        let path = law_what_belongs_to_a_block_stands_in_it(tree, block, node);
    }
    if returns_from(tree, block, node, argument) {
        let path = choose|path: Seq<NodeId>| stays_outside_functions(tree, block, node, path);
        law_block_owns_its_descendants(tree, block, path);
    }
}

proof fn lemma_returning_nodes(tree: &SyntaxTree, block: NodeId, count: nat)
    requires
        tree.well_formed(),
        count <= tree.size(),
    ensures
        ({
            let nodes = returning_nodes(tree, block, count);
            let arguments = block_returns(tree, block, count);
            &&& nodes.len() == arguments.len()
            &&& forall|i: int|
                0 <= i < nodes.len() ==> #[trigger] nodes[i] < count && returns_from(
                    tree,
                    block,
                    nodes[i],
                    arguments[i],
                )
            &&& forall|i: int, k: int|
                0 <= i < k < nodes.len() ==> #[trigger] nodes[i] < #[trigger] nodes[k]
            &&& forall|node: NodeId, argument: NodeId|
                node < count && #[trigger] returns_from(tree, block, node, argument)
                    ==> nodes.contains(node)
        }),
    decreases count,
{
    if count > 0 {
        assert(tree.nodes.len() == tree.nodes@.len());
        let last = (count - 1) as usize;
        lemma_returning_nodes(tree, block, (count - 1) as nat);
        let before = returning_nodes(tree, block, (count - 1) as nat);
        let nodes = returning_nodes(tree, block, count);
        let earlier = block_returns(tree, block, (count - 1) as nat);
        let arguments = block_returns(tree, block, count);
        if let Some(argument) = return_argument(tree, block, last) {
            lemma_return_argument(tree, block, last, argument);
        }
        assert forall|i: int| 0 <= i < nodes.len() implies #[trigger] nodes[i] < count
            && returns_from(tree, block, nodes[i], arguments[i]) by {
            if i < before.len() {
                assert(nodes[i] == before[i]);
                assert(arguments[i] == earlier[i]);
            }
        }
        assert forall|i: int, k: int| 0 <= i < k < nodes.len() implies #[trigger] nodes[i]
            < #[trigger] nodes[k] by {
            assert(nodes[i] == before[i]);
            if k < before.len() {
                assert(nodes[k] == before[k]);
            }
        }
        assert forall|node: NodeId, argument: NodeId|
            node < count && #[trigger] returns_from(
                tree,
                block,
                node,
                argument,
            ) implies nodes.contains(node) by {
            if node == last {
                lemma_return_argument(tree, block, node, argument);
                assert(nodes[nodes.len() - 1] == node);
            } else {
                assert(before.contains(node));
                let i = choose|i: int| 0 <= i < before.len() && before[i] == node;
                assert(nodes[i] == node);
            }
        }
    }
}

/// A block returns the arguments of the return statements that stand in it, at
/// any depth but outside nested functions: each of them once, in the order of
/// the source, and nothing else.
pub proof fn law_a_block_returns_what_stands_in_it(tree: &SyntaxTree, block: NodeId) -> (nodes: Seq<
    NodeId,
>)
    requires
        tree.well_formed(),
    ensures
        nodes.len() == block_returns(tree, block, tree.size()).len(),
        forall|i: int|
            0 <= i < nodes.len() ==> returns_from(
                tree,
                block,
                #[trigger] nodes[i],
                block_returns(tree, block, tree.size())[i],
            ),
        forall|i: int, k: int|
            0 <= i < k < nodes.len() ==> #[trigger] nodes[i] < #[trigger] nodes[k],
        forall|node: NodeId, argument: NodeId| #[trigger]
            returns_from(tree, block, node, argument) ==> nodes.contains(node),
{
    lemma_returning_nodes(tree, block, tree.size());
    returning_nodes(tree, block, tree.size())
}

/// The type of a returned expression is among the returned types, wherever in
/// the block its return statement stands.
pub proof fn law_every_return_counts(
    tree: &SyntaxTree,
    block: NodeId,
    path: Seq<NodeId>,
    argument: NodeId,
)
    requires
        tree.well_formed(),
        stays_outside_functions(tree, block, path.last(), path),
        tree.data_of(path.last()) == (NodeData::ReturnStatement { argument: Some(argument) }),
        tree.is_expression(argument),
    ensures
        body_returns(tree, FunctionBody::Block(block)).contains(argument),
        types_of(tree, body_returns(tree, FunctionBody::Block(block))).contains(
            returned_type(tree, argument),
        ),
        const_asserted(tree, argument) ==> any_const(
            tree,
            body_returns(tree, FunctionBody::Block(block)),
        ),
{
    let node = path.last();
    let arguments = body_returns(tree, FunctionBody::Block(block));
    assert(returns_from(tree, block, node, argument));
    let nodes = law_a_block_returns_what_stands_in_it(tree, block);
    let i = choose|i: int| 0 <= i < nodes.len() && nodes[i] == node;
    assert(returns_from(tree, block, nodes[i], arguments[i]));
    assert(arguments[i] == argument);
    assert(types_of(tree, arguments)[i] == returned_type(tree, argument));
}

/// An arrow function with an expression for a body returns that expression.
pub proof fn law_expression_bodies_return_themselves(tree: &SyntaxTree, expression: NodeId)
    ensures
        body_returns(tree, FunctionBody::Expression(expression)) == seq![expression],
        types_of(tree, seq![expression]) == seq![returned_type(tree, expression)],
        any_const(tree, seq![expression]) == const_asserted(tree, expression),
{
    assert(types_of(tree, seq![expression]) =~= seq![returned_type(tree, expression)]);
    if const_asserted(tree, expression) {
        assert(const_asserted(tree, seq![expression][0]));
    }
}

/// Every returned expression counts with its own type, in its place.
pub proof fn law_types_of_expressions(tree: &SyntaxTree, first: Seq<NodeId>, second: Seq<NodeId>)
    ensures
        types_of(tree, first + second) == types_of(tree, first) + types_of(tree, second),
        types_of(tree, first).len() == first.len(),
        any_const(tree, first + second) == (any_const(tree, first) || any_const(tree, second)),
{
    assert(types_of(tree, first + second) =~= types_of(tree, first) + types_of(tree, second));
    if any_const(tree, first) {
        let i = choose|i: int| 0 <= i < first.len() && const_asserted(tree, #[trigger] first[i]);
        assert(const_asserted(tree, (first + second)[i]));
    }
    if any_const(tree, second) {
        let i = choose|i: int| 0 <= i < second.len() && const_asserted(tree, #[trigger] second[i]);
        assert((first + second)[first.len() + i] == second[i]);
    }
    if any_const(tree, first + second) {
        let i = choose|i: int|
            0 <= i < (first + second).len() && const_asserted(
                tree,
                #[trigger] (first + second)[i],
            );
        if i < first.len() {
            assert(const_asserted(tree, first[i]));
        } else {
            assert(const_asserted(tree, second[i - first.len()]));
        }
    }
}

/// The function body around a node is the nearest one among the node and its
/// ancestors, whatever stands between them.
pub proof fn law_the_nearest_body_encloses(tree: &SyntaxTree, path: Seq<NodeId>)
    requires
        tree.well_formed(),
        descends(tree, path),
        forall|i: int|
            0 < i < path.len() ==> !(tree.data_of(#[trigger] path[i]) is FunctionBody),
    ensures
        tree.data_of(path[0]) is FunctionBody ==> enclosing_body(tree, path.last()) == Some(
            path[0],
        ),
        !(tree.data_of(path[0]) is FunctionBody) && tree.parent_of(path[0]) is None
            ==> enclosing_body(tree, path.last()) is None,
    decreases path.len(),
{
    if path.len() > 1 {
        let rest = path.drop_last();
        let at = path.len() - 1;
        assert(tree.parent_of(path[at]) == Some(path[at - 1]));
        lemma_path_in_range(tree, path, at - 1);
        assert forall|i: int| 0 < i < rest.len() implies tree.parent_of(#[trigger] rest[i]) == Some(
            rest[i - 1],
        ) && !(tree.data_of(rest[i]) is FunctionBody) by {
            assert(rest[i] == path[i]);
        }
        law_the_nearest_body_encloses(tree, rest);
    }
}

/// `inner` is what `outer` holds in parentheses, or under `as`, `satisfies` or a
/// type assertion.
pub open spec fn wraps(tree: &SyntaxTree, outer: NodeId, inner: NodeId) -> bool {
    match tree.data_of(outer) {
        NodeData::AsExpression { expression, .. } => expression == Some(inner),
        NodeData::SatisfiesExpression { expression } => expression == Some(inner),
        NodeData::TypeAssertionExpression { expression, .. } => expression == Some(inner),
        NodeData::ParenthesizedExpression { expression } => expression == Some(inner),
        _ => false,
    }
}

/// All wrappers around an expression are taken off: parentheses, `as`,
/// `satisfies` and type assertions, in whatever order, and nothing else.
pub proof fn law_all_wrappers_come_off(tree: &SyntaxTree, chain: Seq<NodeId>)
    requires
        tree.well_formed(),
        chain.len() > 0,
        chain[0] < tree.size(),
        forall|i: int| 0 < i < chain.len() ==> wraps(tree, chain[i - 1], #[trigger] chain[i]),
        forall|inner: NodeId| !wraps(tree, chain.last(), inner),
    ensures
        innermost(tree, chain[0]) == chain.last(),
    decreases chain.len(),
{
    assert(tree.node_well_formed(chain[0]));
    if chain.len() > 1 {
        let rest = chain.drop_first();
        assert(wraps(tree, chain[0], chain[1]));
        assert forall|i: int| 0 < i < rest.len() implies wraps(
            tree,
            rest[i - 1],
            #[trigger] rest[i],
        ) by {
            assert(wraps(tree, chain[i + 1 - 1], chain[i + 1]));
        }
        assert(rest.last() == chain.last());
        law_all_wrappers_come_off(tree, rest);
    } else {
        let end = chain[0];
        match tree.data_of(end) {
            NodeData::AsExpression { expression: Some(inner), .. } => {
                assert(wraps(tree, end, inner));
            },
            NodeData::SatisfiesExpression { expression: Some(inner) } => {
                assert(wraps(tree, end, inner));
            },
            NodeData::TypeAssertionExpression { expression: Some(inner), .. } => {
                assert(wraps(tree, end, inner));
            },
            NodeData::ParenthesizedExpression { expression: Some(inner) } => {
                assert(wraps(tree, end, inner));
            },
            _ => {},
        }
    }
}

/// `inner` is what `outer` holds in parentheses or under `satisfies`.
pub open spec fn encloses_plainly(tree: &SyntaxTree, outer: NodeId, inner: NodeId) -> bool {
    match tree.data_of(outer) {
        NodeData::SatisfiesExpression { expression } => expression == Some(inner),
        NodeData::ParenthesizedExpression { expression } => expression == Some(inner),
        _ => false,
    }
}

/// The node is an assertion, `x as const` or `<const>x`.
pub open spec fn asserts_const(data: NodeData) -> bool {
    match data {
        NodeData::AsExpression {
            ty: Some(TsType::Reference(Some(EntityName::Identifier(Some(text))))),
            ..
        } => text@ == "const"@,
        NodeData::TypeAssertionExpression {
            ty: Some(TsType::Reference(Some(EntityName::Identifier(Some(text))))),
            ..
        } => text@ == "const"@,
        _ => false,
    }
}

/// Parentheses and `satisfies` do not hide an `as const`, and nothing but an
/// assertion to `const` is one. For an expression that is not a variable it makes
/// no difference whether variables are followed.
pub proof fn law_const_assertions_are_found(tree: &SyntaxTree, chain: Seq<NodeId>)
    requires
        tree.well_formed(),
        chain.len() > 0,
        chain[0] < tree.size(),
        forall|i: int|
            0 < i < chain.len() ==> encloses_plainly(tree, chain[i - 1], #[trigger] chain[i]),
        forall|inner: NodeId| !encloses_plainly(tree, chain.last(), inner),
    ensures
        directly_const(tree, chain[0]) == asserts_const(tree.data_of(chain.last())),
        tree.data_of(chain.last()) is IdentifierExpression ==> const_asserted(tree, chain[0])
            == identifier_const(tree, chain.last()),
        !(tree.data_of(chain.last()) is IdentifierExpression) ==> const_asserted(tree, chain[0])
            == asserts_const(tree.data_of(chain.last())),
    decreases chain.len(),
{
    assert(tree.node_well_formed(chain[0]));
    if chain.len() > 1 {
        let rest = chain.drop_first();
        assert(encloses_plainly(tree, chain[0], chain[1]));
        assert forall|i: int| 0 < i < rest.len() implies encloses_plainly(
            tree,
            rest[i - 1],
            #[trigger] rest[i],
        ) by {
            assert(encloses_plainly(tree, chain[i + 1 - 1], chain[i + 1]));
        }
        assert(rest.last() == chain.last());
        law_const_assertions_are_found(tree, rest);
    } else {
        match tree.data_of(chain[0]) {
            NodeData::SatisfiesExpression { expression: Some(inner) } => {
                assert(encloses_plainly(tree, chain[0], inner));
            },
            NodeData::ParenthesizedExpression { expression: Some(inner) } => {
                assert(encloses_plainly(tree, chain[0], inner));
            },
            _ => {},
        }
    }
}

/// The declarators of a statement, if it declares variables.
pub open spec fn declared_by(tree: &SyntaxTree, statement: NodeId) -> Seq<NodeId> {
    match tree.data_of(statement) {
        NodeData::VariableStatement { declarators } => declarators@,
        _ => Seq::empty(),
    }
}

proof fn lemma_declarators_among(tree: &SyntaxTree, statements: Seq<NodeId>, count: nat)
    requires
        count <= statements.len(),
    ensures
        declarators_among(tree, statements, count) == statements.take(count as int).map_values(
            |statement: NodeId| declared_by(tree, statement),
        ).flatten_alt(),
    decreases count,
{
    let list = |statement: NodeId| declared_by(tree, statement);
    let all = statements.take(count as int).map_values(list);
    if count > 0 {
        lemma_declarators_among(tree, statements, (count - 1) as nat);
        assert(all.drop_last() =~= statements.take(count - 1).map_values(list));
        assert(all.last() == declared_by(tree, statements[count - 1]));
    } else {
        assert(all.len() == 0);
    }
}

/// The variables in scope at a node are those that the statements of the function
/// body around it declare, all of them, in the order of the source.
pub proof fn law_declarators_around(tree: &SyntaxTree, node: NodeId, body: NodeId)
    requires
        enclosing_body(tree, node) == Some(body),
    ensures
        match tree.data_of(body) {
            NodeData::FunctionBody { statements } => declarators_around(tree, node)
                == statements@.map_values(
                |statement: NodeId| declared_by(tree, statement),
            ).flatten(),
            _ => declarators_around(tree, node).len() == 0,
        },
        body_declarators(tree, body) == declarators_around(tree, node),
{
    if let NodeData::FunctionBody { statements } = tree.data_of(body) {
        let lists = statements@.map_values(|statement: NodeId| declared_by(tree, statement));
        lemma_declarators_among(tree, statements@, statements@.len());
        assert(statements@.take(statements@.len() as int) =~= statements@);
        lists.lemma_flatten_and_flatten_alt_are_equivalent();
    }
}

/// Outside all function bodies no variables are in scope.
pub proof fn law_no_declarators_outside_bodies(tree: &SyntaxTree, node: NodeId)
    requires
        enclosing_body(tree, node) is None,
    ensures
        declarators_around(tree, node).len() == 0,
        !identifier_const(tree, node),
        initializer_type(tree, node) is None,
{
}

/// The declarator declares a variable of this name.
pub open spec fn declares_variable(tree: &SyntaxTree, declarator: NodeId, name: Seq<char>) -> bool {
    tree.data_of(declarator) matches NodeData::VariableDeclarator { name: Some(found), .. }
        && found@ == name
}

/// The declarator initializes its variable with this expression.
pub open spec fn initializes_with(
    tree: &SyntaxTree,
    declarator: NodeId,
    initializer: NodeId,
) -> bool {
    tree.data_of(declarator) matches NodeData::VariableDeclarator { initializer: Some(found), .. }
        && found == initializer
}

/// A variable is constant exactly when some declarator in scope gives its name to
/// an expression that is asserted `as const` itself.
pub proof fn law_constant_variables(tree: &SyntaxTree, identifier: NodeId, name: String)
    requires
        tree.data_of(identifier) == (NodeData::IdentifierExpression { name: Some(name) }),
    ensures
        identifier_const(tree, identifier) <==> exists|i: int, initializer: NodeId|
            0 <= i < declarators_around(tree, identifier).len() && declares_variable(
                tree,
                #[trigger] declarators_around(tree, identifier)[i],
                name@,
            ) && #[trigger] initializes_with(
                tree,
                declarators_around(tree, identifier)[i],
                initializer,
            ) && directly_const(tree, initializer),
{
    let declarators = declarators_around(tree, identifier);
    if identifier_const(tree, identifier) {
        let i = choose|i: int|
            0 <= i < declarators.len() && crate::returned::declares_const(
                tree,
                #[trigger] declarators[i],
                name@,
            );
        let initializer = crate::returned::initializer_of(tree, declarators[i])->0;
        assert(declares_variable(tree, declarators[i], name@));
        assert(initializes_with(tree, declarators[i], initializer));
    }
    if exists|i: int, initializer: NodeId|
        0 <= i < declarators.len() && declares_variable(tree, #[trigger] declarators[i], name@)
            && #[trigger] initializes_with(tree, declarators[i], initializer) && directly_const(
            tree,
            initializer,
        ) {
        let (i, initializer) = choose|i: int, initializer: NodeId|
            0 <= i < declarators.len() && declares_variable(tree, #[trigger] declarators[i], name@)
                && #[trigger] initializes_with(tree, declarators[i], initializer)
                && directly_const(tree, initializer);
        assert(crate::returned::declares_const(tree, declarators[i], name@));
    }
}

/// The declarator decides what a variable of this name stands for: it declares the
/// variable, and has no initializer or one that is asserted `as const`.
pub open spec fn decides(tree: &SyntaxTree, declarator: NodeId, name: Seq<char>) -> bool {
    &&& declares_variable(tree, declarator, name)
    &&& forall|initializer: NodeId| #[trigger]
        initializes_with(tree, declarator, initializer) ==> const_asserted(tree, initializer)
}

proof fn lemma_first_settling(
    tree: &SyntaxTree,
    declarators: Seq<NodeId>,
    name: Seq<char>,
    count: nat,
    at: int,
)
    requires
        0 <= at < count <= declarators.len(),
        decides(tree, declarators[at], name),
        forall|i: int| 0 <= i < at ==> !decides(tree, #[trigger] declarators[i], name),
    ensures
        first_settling(tree, declarators, name, count) == Some(declarators[at]),
    decreases count,
{
    if at < count - 1 {
        lemma_first_settling(tree, declarators, name, (count - 1) as nat, at);
    } else {
        lemma_none_settling(tree, declarators, name, (count - 1) as nat);
        lemma_decides(tree, declarators[at], name);
    }
}

proof fn lemma_decides(tree: &SyntaxTree, declarator: NodeId, name: Seq<char>)
    ensures
        decides(tree, declarator, name) == crate::returned::settles(tree, declarator, name),
{
    if let NodeData::VariableDeclarator { name: _, initializer: Some(found) } = tree.data_of(
        declarator,
    ) {
        assert(initializes_with(tree, declarator, found));
    }
}

proof fn lemma_none_settling(
    tree: &SyntaxTree,
    declarators: Seq<NodeId>,
    name: Seq<char>,
    count: nat,
)
    requires
        count <= declarators.len(),
        forall|i: int| 0 <= i < count ==> !decides(tree, #[trigger] declarators[i], name),
    ensures
        first_settling(tree, declarators, name, count) is None,
    decreases count,
{
    if count > 0 {
        lemma_none_settling(tree, declarators, name, (count - 1) as nat);
        lemma_decides(tree, declarators[count - 1], name);
    }
}

/// A variable has the type of the first initializer in scope that is asserted
/// `as const` and bears its name, without wrappers, unless a declarator of that
/// name without initializer comes first.
pub proof fn law_variables_have_the_type_of_their_initializer(
    tree: &SyntaxTree,
    identifier: NodeId,
    name: String,
    at: int,
)
    requires
        tree.data_of(identifier) == (NodeData::IdentifierExpression { name: Some(name) }),
        0 <= at <= declarators_around(tree, identifier).len(),
        forall|i: int|
            0 <= i < at ==> !decides(
                tree,
                #[trigger] declarators_around(tree, identifier)[i],
                name@,
            ),
        at < declarators_around(tree, identifier).len() ==> decides(
            tree,
            declarators_around(tree, identifier)[at],
            name@,
        ),
    ensures
        at == declarators_around(tree, identifier).len() ==> initializer_type(tree, identifier)
            is None,
        at < declarators_around(tree, identifier).len() ==> {
            &&& forall|initializer: NodeId| #[trigger]
                initializes_with(tree, declarators_around(tree, identifier)[at], initializer)
                    ==> initializer_type(tree, identifier) == Some(
                    tree.type_of(innermost(tree, initializer)),
                )
            &&& (forall|initializer: NodeId|
                !#[trigger] initializes_with(
                    tree,
                    declarators_around(tree, identifier)[at],
                    initializer,
                )) ==> initializer_type(tree, identifier) is None
        },
{
    let declarators = declarators_around(tree, identifier);
    if at < declarators.len() {
        lemma_first_settling(tree, declarators, name@, declarators.len(), at);
        if let NodeData::VariableDeclarator { name: _, initializer: Some(found) } = tree.data_of(
            declarators[at],
        ) {
            assert(initializes_with(tree, declarators[at], found));
        }
    } else {
        lemma_none_settling(tree, declarators, name@, declarators.len());
    }
}

/// Nothing but a variable with a name stands for an initializer.
pub proof fn law_only_variables_stand_for_initializers(tree: &SyntaxTree, expression: NodeId)
    requires
        forall|name: String|
            tree.data_of(expression) != (NodeData::IdentifierExpression { name: Some(name) }),
    ensures
        initializer_type(tree, expression) is None,
        !identifier_const(tree, expression),
        innermost(tree, expression) == expression ==> returned_type(tree, expression)
            == tree.type_of(expression),
{
    if let NodeData::IdentifierExpression { name: Some(name) } = tree.data_of(expression) {
        assert(tree.data_of(expression) == (NodeData::IdentifierExpression { name: Some(name) }));
    }
}

/// A returned expression counts with the type of the expression inside its
/// wrappers, or with that of the initializer that such a variable stands for.
pub proof fn law_returned_types(tree: &SyntaxTree, chain: Seq<NodeId>)
    requires
        tree.well_formed(),
        chain.len() > 0,
        chain[0] < tree.size(),
        forall|i: int| 0 < i < chain.len() ==> wraps(tree, chain[i - 1], #[trigger] chain[i]),
        forall|inner: NodeId| !wraps(tree, chain.last(), inner),
    ensures
        initializer_type(tree, chain.last()) is None ==> returned_type(tree, chain[0])
            == tree.type_of(chain.last()),
        initializer_type(tree, chain.last()) matches Some(ty) ==> returned_type(tree, chain[0])
            == ty,
{
    law_all_wrappers_come_off(tree, chain);
}

/// A returned variable that the function body around it declares with an
/// `as const` initializer has the type of the initializer and counts as constant,
/// however deep in statements it stands, if no other declarator there bears its
/// name.
pub proof fn law_returned_constants(
    tree: &SyntaxTree,
    path: Seq<NodeId>,
    name: String,
    statements: Vec<NodeId>,
    declarators: Vec<NodeId>,
    statement: int,
    declarator: int,
    initializer: NodeId,
)
    requires
        tree.well_formed(),
        descends(tree, path),
        tree.data_of(path[0]) == (NodeData::FunctionBody { statements }),
        forall|i: int|
            0 < i < path.len() ==> !(tree.data_of(#[trigger] path[i]) is FunctionBody),
        tree.data_of(path.last()) == (NodeData::IdentifierExpression { name: Some(name) }),
        0 <= statement < statements@.len(),
        tree.data_of(statements@[statement]) == (NodeData::VariableStatement { declarators }),
        0 <= declarator < declarators@.len(),
        declares_variable(tree, declarators@[declarator], name@),
        initializes_with(tree, declarators@[declarator], initializer),
        asserts_const(tree.data_of(initializer)),
        forall|other: NodeId|
            other != declarators@[declarator] ==> !#[trigger] declares_variable(
                tree,
                other,
                name@,
            ),
    ensures
        returned_type(tree, path.last()) == tree.type_of(innermost(tree, initializer)),
        const_asserted(tree, path.last()),
{
    let identifier = path.last();
    let found = declarators@[declarator];
    let list = |s: NodeId| declared_by(tree, s);
    let lists = statements@.map_values(list);
    law_the_nearest_body_encloses(tree, path);
    law_declarators_around(tree, identifier, path[0]);
    let around = declarators_around(tree, identifier);
    assert(lists[statement] == declarators@);
    assert(around.contains(found)) by {
        lemma_flatten_contains(lists, statement, declarator);
    }
    assert(directly_const(tree, initializer));
    assert(const_asserted(tree, initializer));
    assert(decides(tree, found, name@));
    let first = lemma_least(around, found);
    assert forall|i: int| 0 <= i < first implies !decides(tree, #[trigger] around[i], name@) by {
        assert(!declares_variable(tree, around[i], name@));
    }
    law_variables_have_the_type_of_their_initializer(tree, identifier, name, first);
    assert(initializes_with(tree, around[first], initializer));
    law_constant_variables(tree, identifier, name);
    assert(declares_variable(tree, around[first], name@));
    assert(identifier_const(tree, identifier));
}

/// The first place at which a value stands.
proof fn lemma_least(values: Seq<NodeId>, value: NodeId) -> (at: int)
    requires
        values.contains(value),
    ensures
        0 <= at < values.len(),
        values[at] == value,
        forall|i: int| 0 <= i < at ==> #[trigger] values[i] != value,
    decreases values.len(),
{
    if values.drop_last().contains(value) {
        let at = lemma_least(values.drop_last(), value);
        assert forall|i: int| 0 <= i < at implies #[trigger] values[i] != value by {
            assert(values.drop_last()[i] == values[i]);
        }
        at
    } else {
        assert forall|i: int| 0 <= i < values.len() - 1 implies #[trigger] values[i] != value by {
            assert(values.drop_last()[i] == values[i]);
        }
        values.len() - 1
    }
}

/// What stands in one of several lists stands in all of them together.
proof fn lemma_flatten_contains(lists: Seq<Seq<NodeId>>, list: int, at: int)
    requires
        0 <= list < lists.len(),
        0 <= at < lists[list].len(),
    ensures
        lists.flatten().contains(lists[list][at]),
    decreases lists.len(),
{
    let value = lists[list][at];
    let rest = lists.drop_first();
    let all = lists.flatten();
    assert(all == lists.first() + rest.flatten());
    if list == 0 {
        assert(all[at] == value);
    } else {
        assert(rest[list - 1] == lists[list]);
        lemma_flatten_contains(rest, list - 1, at);
        let k = choose|k: int| 0 <= k < rest.flatten().len() && rest.flatten()[k] == value;
        assert(all[lists.first().len() + k] == value);
    }
}

/// The types of a tree are those of its expressions.
pub proof fn law_types_of_nodes(tree: &SyntaxTree, node: NodeId, ty: TypeId)
    requires
        node < tree.size(),
    ensures
        tree.is_expression(node) && tree.type_of(node) == ty <==>
            tree.nodes@[node as int].expression_type == Some(ty),
        tree.data_of(node) == tree.nodes@[node as int].data,
        tree.parent_of(node) == tree.nodes@[node as int].parent,
{
}

/// The node is there, and has a type as an expression.
pub open spec fn has_a_type(tree: &SyntaxTree, node: NodeId) -> bool {
    node < tree.nodes@.len() && tree.nodes@[node as int].expression_type is Some
}

/// The node comes after its parent, and what it refers to is there: bodies,
/// statements, declarators and arguments as nodes, initializers and expression
/// bodies as expressions, and wrapped expressions as expressions that come later.
pub open spec fn refers_to_nodes(tree: &SyntaxTree, node: NodeId) -> bool {
    let size = tree.nodes@.len();
    let entry = tree.nodes@[node as int];
    &&& entry.parent matches Some(parent) ==> parent < node
    &&& entry.data matches NodeData::Function(function) ==> {
        &&& function.body matches Some(FunctionBody::Block(block)) ==> block < size
        &&& function.body matches Some(FunctionBody::Expression(inner)) ==> has_a_type(tree, inner)
    }
    &&& entry.data matches NodeData::MethodClassMember(method) ==> (method.body matches Some(body)
        ==> body < size)
    &&& entry.data matches NodeData::MethodObjectMember(method) ==> (method.body matches Some(body)
        ==> body < size)
    &&& entry.data matches NodeData::GetterClassMember(getter) ==> (getter.body matches Some(body)
        ==> body < size)
    &&& entry.data matches NodeData::GetterObjectMember(getter) ==> (getter.body matches Some(body)
        ==> body < size)
    &&& entry.data matches NodeData::FunctionBody { statements } ==> forall|i: int|
        0 <= i < statements@.len() ==> #[trigger] statements@[i] < size
    &&& entry.data matches NodeData::VariableStatement { declarators } ==> forall|i: int|
        0 <= i < declarators@.len() ==> #[trigger] declarators@[i] < size
    &&& entry.data matches NodeData::ReturnStatement { argument: Some(argument) } ==> argument
        < size
    &&& entry.data matches NodeData::VariableDeclarator { initializer: Some(inner), .. }
        ==> has_a_type(tree, inner)
    &&& forall|inner: NodeId| #[trigger]
        wraps(tree, node, inner) ==> node < inner && has_a_type(tree, inner)
}

/// A tree is valid exactly when all its nodes are.
pub proof fn law_valid_trees(tree: &SyntaxTree)
    ensures
        tree.well_formed() <==> forall|node: NodeId|
            node < tree.nodes@.len() ==> #[trigger] refers_to_nodes(tree, node),
{
    assert forall|node: NodeId| node < tree.nodes@.len() implies #[trigger] refers_to_nodes(
        tree,
        node,
    ) == tree.node_well_formed(node) by {
        lemma_valid_node(tree, node);
    }
    if tree.well_formed() {
        assert forall|node: NodeId| node < tree.nodes@.len() implies #[trigger] refers_to_nodes(
            tree,
            node,
        ) by {
            assert(tree.node_well_formed(node));
        }
    }
    if forall|node: NodeId| node < tree.nodes@.len() ==> #[trigger] refers_to_nodes(tree, node) {
        assert forall|node: NodeId| node < tree.size() implies #[trigger] tree.node_well_formed(
            node,
        ) by {
            assert(refers_to_nodes(tree, node));
        }
    }
}

proof fn lemma_valid_node(tree: &SyntaxTree, node: NodeId)
    ensures
        refers_to_nodes(tree, node) == tree.node_well_formed(node),
{
    match tree.data_of(node) {
        NodeData::AsExpression { expression: Some(inner), .. } => {
            assert(wraps(tree, node, inner));
        },
        NodeData::SatisfiesExpression { expression: Some(inner) } => {
            assert(wraps(tree, node, inner));
        },
        NodeData::TypeAssertionExpression { expression: Some(inner), .. } => {
            assert(wraps(tree, node, inner));
        },
        NodeData::ParenthesizedExpression { expression: Some(inner) } => {
            assert(wraps(tree, node, inner));
        },
        _ => {},
    }
}

/// The types that a node speaks of are among the first ones.
pub open spec fn speaks_of_types(tree: &SyntaxTree, node: NodeId, types: nat) -> bool {
    let entry = tree.nodes@[node as int];
    &&& entry.expression_type matches Some(ty) ==> ty < types
    &&& entry.data matches NodeData::Function(function) ==> function.ty < types
    &&& entry.data matches NodeData::MethodClassMember(method) ==> (
    method.member_type matches Some(ty) ==> ty < types)
    &&& entry.data matches NodeData::MethodObjectMember(method) ==> (
    method.member_type matches Some(ty) ==> ty < types)
    &&& entry.data matches NodeData::GetterClassMember(getter) ==> (getter.member matches Some(
        member,
    ) ==> member.ty < types)
    &&& entry.data matches NodeData::GetterObjectMember(getter) ==> (getter.member matches Some(
        member,
    ) ==> member.ty < types)
}

/// A tree is typed within a graph exactly when all types that its nodes speak of
/// are in the graph.
pub proof fn law_typed_trees(tree: &SyntaxTree, types: nat)
    ensures
        tree.typed_within(types) <==> forall|node: NodeId|
            node < tree.nodes@.len() ==> #[trigger] speaks_of_types(tree, node, types),
{
    assert forall|node: NodeId| node < tree.nodes@.len() implies #[trigger] speaks_of_types(
        tree,
        node,
        types,
    ) == tree.node_typed_within(node, types) by {}
    if tree.typed_within(types) {
        assert forall|node: NodeId| node < tree.nodes@.len() implies #[trigger] speaks_of_types(
            tree,
            node,
            types,
        ) by {
            assert(tree.node_typed_within(node, types));
        }
    }
    if forall|node: NodeId|
        node < tree.nodes@.len() ==> #[trigger] speaks_of_types(tree, node, types) {
        assert forall|node: NodeId| node < tree.size() implies #[trigger] tree.node_typed_within(
            node,
            types,
        ) by {
            assert(speaks_of_types(tree, node, types));
        }
    }
}

} // verus!

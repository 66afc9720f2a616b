//! Which types a function returns, and whether `as const` is used for it.
use crate::syntax::{EntityName, FunctionBody, FunctionKind, NodeData, NodeId, SyntaxTree, TsType};
use crate::types::{ids_in_range, TypeId};
use vstd::prelude::*;

verus! {

/// The type is written `const`.
pub open spec fn const_reference(ty: Option<TsType>) -> bool {
    match ty {
        Some(TsType::Reference(Some(EntityName::Identifier(Some(text))))) => text@ == "const"@,
        _ => false,
    }
}

/// Whether the type is written `const`.
pub fn is_const_reference_type(ty: &Option<TsType>) -> (found: bool)
    ensures
        found == const_reference(*ty),
{
    match ty {
        Some(TsType::Reference(Some(EntityName::Identifier(Some(text))))) => {
            *text == "const".to_owned()
        },
        _ => false,
    }
}

/// The expression inside a type assertion, a `satisfies` or parentheses.
pub open spec fn wrapped_expression(data: NodeData) -> Option<NodeId> {
    match data {
        NodeData::AsExpression { expression, ty: _ } => expression,
        NodeData::SatisfiesExpression { expression } => expression,
        NodeData::TypeAssertionExpression { expression, ty: _ } => expression,
        NodeData::ParenthesizedExpression { expression } => expression,
        _ => None,
    }
}

/// The expression inside all type assertions, `satisfies` and parentheses.
pub open spec fn innermost(tree: &SyntaxTree, expression: NodeId) -> NodeId
    decreases tree.size() - expression,
{
    match wrapped_expression(tree.data_of(expression)) {
        Some(inner) => if expression < inner < tree.size() {
            innermost(tree, inner)
        } else {
            expression
        },
        None => expression,
    }
}

/// The expression inside all type assertions, `satisfies` and parentheses.
pub fn unwrap_type_wrappers(tree: &SyntaxTree, expression: NodeId) -> (inner: NodeId)
    requires
        tree.well_formed(),
        tree.is_expression(expression),
    ensures
        inner == innermost(tree, expression),
        tree.is_expression(inner),
{
    let mut current: NodeId = expression;
    loop
        invariant
            tree.well_formed(),
            tree.is_expression(current),
            innermost(tree, expression) == innermost(tree, current),
        decreases tree.size() - current,
    {
        assert(tree.node_well_formed(current));
        match tree.data(current) {
            NodeData::AsExpression { expression: Some(inner), .. }
            | NodeData::SatisfiesExpression { expression: Some(inner) }
            | NodeData::TypeAssertionExpression { expression: Some(inner), .. }
            | NodeData::ParenthesizedExpression { expression: Some(inner) } => {
                current = *inner;
            },
            _ => {
                return current;
            },
        }
    }
}

/// The expression is asserted `as const` itself, be it inside parentheses or `satisfies`.
pub open spec fn directly_const(tree: &SyntaxTree, expression: NodeId) -> bool
    decreases tree.size() - expression,
{
    match tree.data_of(expression) {
        NodeData::AsExpression { expression: _, ty } => const_reference(ty),
        NodeData::TypeAssertionExpression { expression: _, ty } => const_reference(ty),
        NodeData::ParenthesizedExpression { expression: Some(inner) } => expression < inner
            < tree.size() && directly_const(tree, inner),
        NodeData::SatisfiesExpression { expression: Some(inner) } => expression < inner
            < tree.size() && directly_const(tree, inner),
        _ => false,
    }
}

/// Checks for `as const` on the expression itself, without following identifiers.
pub fn init_has_direct_const_assertion(
    tree: &SyntaxTree,
    expression: NodeId,
) -> (found: bool)
    requires
        tree.well_formed(),
        tree.is_expression(expression),
    ensures
        found == directly_const(tree, expression),
{
    let mut current: NodeId = expression;
    loop
        invariant
            tree.well_formed(),
            tree.is_expression(current),
            directly_const(tree, expression) == directly_const(tree, current),
        decreases tree.size() - current,
    {
        assert(tree.node_well_formed(current));
        match tree.data(current) {
            NodeData::AsExpression { ty, .. } => {
                return is_const_reference_type(ty);
            },
            NodeData::TypeAssertionExpression { ty, .. } => {
                return is_const_reference_type(ty);
            },
            NodeData::ParenthesizedExpression { expression: Some(inner) }
            | NodeData::SatisfiesExpression { expression: Some(inner) } => {
                current = *inner;
            },
            _ => {
                return false;
            },
        }
    }
}

/// The function body that a node stands in, or is.
pub open spec fn enclosing_body(tree: &SyntaxTree, node: NodeId) -> Option<NodeId>
    decreases node,
{
    if tree.data_of(node) is FunctionBody {
        Some(node)
    } else {
        match tree.parent_of(node) {
            Some(parent) => if parent < node {
                enclosing_body(tree, parent)
            } else {
                None
            },
            None => None,
        }
    }
}

fn find_enclosing_body(tree: &SyntaxTree, node: NodeId) -> (body: Option<NodeId>)
    requires
        tree.well_formed(),
        node < tree.size(),
    ensures
        body == enclosing_body(tree, node),
        body matches Some(found) ==> found < tree.size(),
{
    let mut current: NodeId = node;
    loop
        invariant
            tree.well_formed(),
            current < tree.size(),
            enclosing_body(tree, node) == enclosing_body(tree, current),
        decreases current,
    {
        assert(tree.node_well_formed(current));
        if matches!(tree.data(current), NodeData::FunctionBody { .. }) {
            return Some(current);
        }
        match tree.nodes[current].parent {
            Some(parent) => {
                current = parent;
            },
            None => {
                return None;
            },
        }
    }
}

/// The declarators of a statement that declares variables.
pub open spec fn statement_declarators(tree: &SyntaxTree, statement: NodeId) -> Seq<NodeId> {
    match tree.data_of(statement) {
        NodeData::VariableStatement { declarators } => declarators@,
        _ => Seq::empty(),
    }
}

/// The declarators of the variable statements among the first `count`
/// statements, in order.
pub open spec fn declarators_among(
    tree: &SyntaxTree,
    statements: Seq<NodeId>,
    count: nat,
) -> Seq<NodeId>
    decreases count,
{
    if count == 0 {
        Seq::empty()
    } else {
        declarators_among(tree, statements, (count - 1) as nat) + statement_declarators(
            tree,
            statements[count - 1],
        )
    }
}

/// The declarators that stand in a function body directly, in order.
pub open spec fn body_declarators(tree: &SyntaxTree, body: NodeId) -> Seq<NodeId> {
    match tree.data_of(body) {
        NodeData::FunctionBody { statements } => declarators_among(
            tree,
            statements@,
            statements@.len(),
        ),
        _ => Seq::empty(),
    }
}

/// The declarators that are in scope at a node through the function body around it.
pub open spec fn declarators_around(tree: &SyntaxTree, node: NodeId) -> Seq<NodeId> {
    match enclosing_body(tree, node) {
        Some(body) => body_declarators(tree, body),
        None => Seq::empty(),
    }
}

fn collect_declarators_around(tree: &SyntaxTree, node: NodeId) -> (found: Vec<NodeId>)
    requires
        tree.well_formed(),
        node < tree.size(),
    ensures
        found@ == declarators_around(tree, node),
        ids_in_range(found@, tree.size()),
{
    let mut found: Vec<NodeId> = Vec::new();
    let body = match find_enclosing_body(tree, node) {
        Some(body) => body,
        None => {
            return found;
        },
    };
    assert(tree.node_well_formed(body));
    if let NodeData::FunctionBody { statements } = tree.data(body) {
        let mut i: usize = 0;
        while i < statements.len()
            invariant
                tree.well_formed(),
                ids_in_range(statements@, tree.size()),
                i <= statements@.len(),
                found@ == declarators_among(tree, statements@, i as nat),
                ids_in_range(found@, tree.size()),
            decreases statements@.len() - i,
        {
            let statement = statements[i];
            assert(tree.node_well_formed(statement));
            let ghost before = found@;
            if let NodeData::VariableStatement { declarators } = tree.data(statement) {
                let mut k: usize = 0;
                assert(found@ =~= before + declarators@.take(0));
                while k < declarators.len()
                    invariant
                        ids_in_range(declarators@, tree.size()),
                        k <= declarators@.len(),
                        found@ == before + declarators@.take(k as int),
                        ids_in_range(found@, tree.size()),
                    decreases declarators@.len() - k,
                {
                    found.push(declarators[k]);
                    k = k + 1;
                    assert(found@ =~= before + declarators@.take(k as int));
                }
                assert(declarators@.take(declarators@.len() as int) =~= declarators@);
            }
            assert(found@ =~= before + statement_declarators(tree, statement));
            i = i + 1;
        }
    }
    found
}

/// The declarator binds this name.
pub open spec fn declares(tree: &SyntaxTree, declarator: NodeId, name: Seq<char>) -> bool {
    match tree.data_of(declarator) {
        NodeData::VariableDeclarator { name: Some(found), initializer: _ } => found@ == name,
        _ => false,
    }
}

/// The expression that a declarator initializes its variable with.
pub open spec fn initializer_of(tree: &SyntaxTree, declarator: NodeId) -> Option<NodeId> {
    match tree.data_of(declarator) {
        NodeData::VariableDeclarator { name: _, initializer } => initializer,
        _ => None,
    }
}

/// The declarator binds this name to an expression that is asserted `as const` itself.
pub open spec fn declares_const(tree: &SyntaxTree, declarator: NodeId, name: Seq<char>) -> bool {
    &&& declares(tree, declarator, name)
    &&& match initializer_of(tree, declarator) {
        Some(initializer) => directly_const(tree, initializer),
        None => false,
    }
}

/// Whether the declarator binds this name to an expression that is asserted
/// `as const` itself. There is no need to follow identifiers again here.
pub fn declarator_matches_name_with_const(
    tree: &SyntaxTree,
    declarator: NodeId,
    name: &String,
) -> (found: bool)
    requires
        tree.well_formed(),
        declarator < tree.size(),
    ensures
        found == declares_const(tree, declarator, name@),
{
    assert(tree.node_well_formed(declarator));
    match tree.data(declarator) {
        NodeData::VariableDeclarator { name: Some(found), initializer: Some(initializer) } => {
            *found == *name && init_has_direct_const_assertion(tree, *initializer)
        },
        _ => false,
    }
}

/// Some variable of this name in the function body around the node is asserted `as const`.
pub open spec fn refers_to_const(tree: &SyntaxTree, node: NodeId, name: Seq<char>) -> bool {
    exists|i: int|
        0 <= i < declarators_around(tree, node).len() && declares_const(
            tree,
            #[trigger] declarators_around(tree, node)[i],
            name,
        )
}

/// The node is an identifier that refers to a variable that is asserted `as const`.
pub open spec fn identifier_const(tree: &SyntaxTree, identifier: NodeId) -> bool {
    match tree.data_of(identifier) {
        NodeData::IdentifierExpression { name: Some(name) } => refers_to_const(
            tree,
            identifier,
            name@,
        ),
        _ => false,
    }
}

/// Whether an identifier refers to a variable that is asserted `as const`.
pub fn identifier_refers_to_const_assertion(tree: &SyntaxTree, identifier: NodeId) -> (found: bool)
    requires
        tree.well_formed(),
        identifier < tree.size(),
    ensures
        found == identifier_const(tree, identifier),
{
    let name = match tree.data(identifier) {
        NodeData::IdentifierExpression { name: Some(name) } => name,
        _ => {
            return false;
        },
    };
    let declarators = collect_declarators_around(tree, identifier);
    let mut i: usize = 0;
    while i < declarators.len()
        invariant
            tree.well_formed(),
            declarators@ == declarators_around(tree, identifier),
            ids_in_range(declarators@, tree.size()),
            tree.data_of(identifier) == (NodeData::IdentifierExpression { name: Some(*name) }),
            i <= declarators@.len(),
            forall|j: int| 0 <= j < i ==> !declares_const(tree, #[trigger] declarators@[j], name@),
        decreases declarators@.len() - i,
    {
        if declarator_matches_name_with_const(tree, declarators[i], name) {
            assert(declares_const(
                tree,
                declarators_around(tree, identifier)[i as int],
                name@,
            ));
            return true;
        }
        i = i + 1;
    }
    false
}

/// The expression is asserted `as const`, or is a variable that is.
pub open spec fn const_asserted(tree: &SyntaxTree, expression: NodeId) -> bool
    decreases tree.size() - expression,
{
    match tree.data_of(expression) {
        NodeData::AsExpression { expression: _, ty } => const_reference(ty),
        NodeData::TypeAssertionExpression { expression: _, ty } => const_reference(ty),
        NodeData::ParenthesizedExpression { expression: Some(inner) } => expression < inner
            < tree.size() && const_asserted(tree, inner),
        NodeData::SatisfiesExpression { expression: Some(inner) } => expression < inner
            < tree.size() && const_asserted(tree, inner),
        NodeData::IdentifierExpression { .. } => identifier_const(tree, expression),
        _ => false,
    }
}

/// Whether the expression is asserted `as const`, or is a variable that is.
pub fn has_const_assertion(tree: &SyntaxTree, expression: NodeId) -> (found: bool)
    requires
        tree.well_formed(),
        tree.is_expression(expression),
    ensures
        found == const_asserted(tree, expression),
{
    let mut current: NodeId = expression;
    loop
        invariant
            tree.well_formed(),
            tree.is_expression(current),
            const_asserted(tree, expression) == const_asserted(tree, current),
        decreases tree.size() - current,
    {
        assert(tree.node_well_formed(current));
        match tree.data(current) {
            NodeData::AsExpression { ty, .. } => {
                return is_const_reference_type(ty);
            },
            NodeData::TypeAssertionExpression { ty, .. } => {
                return is_const_reference_type(ty);
            },
            NodeData::ParenthesizedExpression { expression: Some(inner) }
            | NodeData::SatisfiesExpression { expression: Some(inner) } => {
                current = *inner;
            },
            NodeData::IdentifierExpression { .. } => {
                return identifier_refers_to_const_assertion(tree, current);
            },
            _ => {
                return false;
            },
        }
    }
}

/// The declarator settles what a name stands for: it binds the name, and its
/// initializer is missing or asserted `as const`.
pub open spec fn settles(tree: &SyntaxTree, declarator: NodeId, name: Seq<char>) -> bool {
    &&& declares(tree, declarator, name)
    &&& match initializer_of(tree, declarator) {
        Some(initializer) => const_asserted(tree, initializer),
        None => true,
    }
}

/// The first of the first `count` declarators that settles what a name stands for.
pub open spec fn first_settling(
    tree: &SyntaxTree,
    declarators: Seq<NodeId>,
    name: Seq<char>,
    count: nat,
) -> Option<NodeId>
    decreases count,
{
    if count == 0 {
        None
    } else {
        match first_settling(tree, declarators, name, (count - 1) as nat) {
            Some(found) => Some(found),
            None => if settles(tree, declarators[count - 1], name) {
                Some(declarators[count - 1])
            } else {
                None
            },
        }
    }
}

/// The type of the `as const` initializer that an identifier refers to, without
/// the assertion.
pub open spec fn initializer_type(tree: &SyntaxTree, identifier: NodeId) -> Option<TypeId> {
    match tree.data_of(identifier) {
        NodeData::IdentifierExpression { name: Some(name) } => {
            let declarators = declarators_around(tree, identifier);
            match first_settling(tree, declarators, name@, declarators.len()) {
                Some(declarator) => match initializer_of(tree, declarator) {
                    Some(initializer) => Some(tree.type_of(innermost(tree, initializer))),
                    None => None,
                },
                None => None,
            }
        },
        _ => None,
    }
}

proof fn lemma_first_settling_stops(
    tree: &SyntaxTree,
    declarators: Seq<NodeId>,
    name: Seq<char>,
    count: nat,
    more: nat,
)
    requires
        count <= more,
        first_settling(tree, declarators, name, count) is Some,
    ensures
        first_settling(tree, declarators, name, more) == first_settling(
            tree,
            declarators,
            name,
            count,
        ),
    decreases more,
{
    if count < more {
        lemma_first_settling_stops(tree, declarators, name, count, (more - 1) as nat);
    }
}

/// The type of the `as const` initializer that an identifier refers to, without
/// the assertion.
pub fn resolve_identifier_initializer_type(
    tree: &SyntaxTree,
    identifier: NodeId,
) -> (ty: Option<TypeId>)
    requires
        tree.well_formed(),
        identifier < tree.size(),
    ensures
        ty == initializer_type(tree, identifier),
{
    let name = match tree.data(identifier) {
        NodeData::IdentifierExpression { name: Some(name) } => name,
        _ => {
            return None;
        },
    };
    let declarators = collect_declarators_around(tree, identifier);
    let mut i: usize = 0;
    while i < declarators.len()
        invariant
            tree.well_formed(),
            declarators@ == declarators_around(tree, identifier),
            ids_in_range(declarators@, tree.size()),
            tree.data_of(identifier) == (NodeData::IdentifierExpression { name: Some(*name) }),
            i <= declarators@.len(),
            first_settling(tree, declarators@, name@, i as nat) is None,
        decreases declarators@.len() - i,
    {
        let declarator = declarators[i];
        assert(tree.node_well_formed(declarator));
        if let NodeData::VariableDeclarator { name: Some(found), initializer } = tree.data(
            declarator,
        ) {
            if *found == *name {
                match initializer {
                    Some(initializer) => {
                        if has_const_assertion(tree, *initializer) {
                            proof {
                                lemma_first_settling_stops(
                                    tree,
                                    declarators@,
                                    name@,
                                    (i + 1) as nat,
                                    declarators@.len(),
                                );
                            }
                            let inner = unwrap_type_wrappers(tree, *initializer);
                            assert(tree.node_well_formed(inner));
                            return Some(tree.type_of_expression(inner));
                        }
                    },
                    None => {
                        proof {
                            lemma_first_settling_stops(
                                tree,
                                declarators@,
                                name@,
                                (i + 1) as nat,
                                declarators@.len(),
                            );
                        }
                        return None;
                    },
                }
            }
        }
        i = i + 1;
    }
    None
}

/// The type that a returned expression has.
pub open spec fn returned_type(tree: &SyntaxTree, expression: NodeId) -> TypeId {
    let inner = innermost(tree, expression);
    match initializer_type(tree, inner) {
        Some(ty) => ty,
        None => tree.type_of(inner),
    }
}

/// Gets the type of a return expression. For identifiers bound to an
/// `as const` initializer this is the literal type of the initializer, since
/// the type of the identifier itself is widened.
pub fn infer_expression_type(tree: &SyntaxTree, expression: NodeId) -> (ty: TypeId)
    requires
        tree.well_formed(),
        tree.is_expression(expression),
    ensures
        ty == returned_type(tree, expression),
{
    let inner = unwrap_type_wrappers(tree, expression);
    assert(tree.node_well_formed(inner));
    if let Some(ty) = resolve_identifier_initializer_type(tree, inner) {
        return ty;
    }
    tree.type_of_expression(inner)
}

/// A function, or another member with a body of its own, inside a function.
pub open spec fn nested_function(data: NodeData) -> bool {
    match data {
        NodeData::Function(function) => !(function.kind is ExportDefaultDeclaration),
        NodeData::ConstructorClassMember => true,
        NodeData::MethodClassMember(_) => true,
        NodeData::MethodObjectMember(_) => true,
        NodeData::GetterClassMember(_) => true,
        NodeData::GetterObjectMember(_) => true,
        NodeData::SetterClassMember => true,
        NodeData::SetterObjectMember => true,
        _ => false,
    }
}

/// Whether a node is a function, or another member with a body of its own,
/// inside a function.
pub fn is_nested_function_like(data: &NodeData) -> (nested: bool)
    ensures
        nested == nested_function(*data),
{
    match data {
        NodeData::Function(function) => {
            !matches!(function.kind, FunctionKind::ExportDefaultDeclaration)
        },
        NodeData::ConstructorClassMember
        | NodeData::MethodClassMember(_)
        | NodeData::MethodObjectMember(_)
        | NodeData::GetterClassMember(_)
        | NodeData::GetterObjectMember(_)
        | NodeData::SetterClassMember
        | NodeData::SetterObjectMember => true,
        _ => false,
    }
}

/// The node belongs to a block, and not to a function nested in it.
pub open spec fn belongs_to_block(tree: &SyntaxTree, block: NodeId, node: NodeId) -> bool
    decreases node,
{
    if node == block {
        true
    } else {
        match tree.parent_of(node) {
            Some(parent) => parent < node && !nested_function(tree.data_of(node))
                && belongs_to_block(tree, block, parent),
            None => false,
        }
    }
}

/// The expression that a node of the block returns, if it returns one.
pub open spec fn return_argument(tree: &SyntaxTree, block: NodeId, node: NodeId) -> Option<NodeId> {
    match tree.data_of(node) {
        NodeData::ReturnStatement { argument: Some(argument) } => if belongs_to_block(
            tree,
            block,
            node,
        ) && tree.is_expression(argument) {
            Some(argument)
        } else {
            None
        },
        _ => None,
    }
}

/// The expressions that a block returns, among the first `count` nodes, in
/// document order.
pub open spec fn block_returns(tree: &SyntaxTree, block: NodeId, count: nat) -> Seq<NodeId>
    decreases count,
{
    if count == 0 {
        Seq::empty()
    } else {
        let before = block_returns(tree, block, (count - 1) as nat);
        match return_argument(tree, block, (count - 1) as usize) {
            Some(argument) => before.push(argument),
            None => before,
        }
    }
}

/// The types of expressions.
pub open spec fn types_of(tree: &SyntaxTree, expressions: Seq<NodeId>) -> Seq<TypeId> {
    Seq::new(expressions.len(), |i: int| returned_type(tree, expressions[i]))
}

/// Some of the expressions is asserted `as const`.
pub open spec fn any_const(tree: &SyntaxTree, expressions: Seq<NodeId>) -> bool {
    exists|i: int| 0 <= i < expressions.len() && const_asserted(tree, #[trigger] expressions[i])
}

/// Collects the types that a block returns, and tells in `has_any_const`
/// whether `as const` was used for one of them.
pub fn collect_block_returns(
    tree: &SyntaxTree,
    block: NodeId,
    has_any_const: &mut bool,
) -> (returned: Vec<TypeId>)
    requires
        tree.well_formed(),
        block < tree.size(),
    ensures
        returned@ == types_of(tree, block_returns(tree, block, tree.size())),
        *final(has_any_const) == (*old(has_any_const) || any_const(
            tree,
            block_returns(tree, block, tree.size()),
        )),
{
    let mut returned: Vec<TypeId> = Vec::new();
    let mut member: Vec<bool> = Vec::new();
    let mut node: usize = 0;
    assert(returned@ =~= types_of(tree, block_returns(tree, block, 0)));
    while node < tree.nodes.len()
        invariant
            tree.well_formed(),
            block < tree.size(),
            node <= tree.nodes@.len(),
            member@.len() == node,
            forall|i: NodeId|
                i < node ==> #[trigger] member@[i as int] == belongs_to_block(tree, block, i),
            returned@ == types_of(tree, block_returns(tree, block, node as nat)),
            *has_any_const == (*old(has_any_const) || any_const(
                tree,
                block_returns(tree, block, node as nat),
            )),
            decreases tree.nodes@.len() - node,
    {
        assert(tree.node_well_formed(node));
        let belongs = if node == block {
            true
        } else {
            match tree.nodes[node].parent {
                Some(parent) => !is_nested_function_like(tree.data(node)) && member[parent],
                None => false,
            }
        };
        member.push(belongs);
        let ghost before = block_returns(tree, block, node as nat);
        let ghost after = block_returns(tree, block, (node + 1) as nat);
        if let NodeData::ReturnStatement { argument: Some(argument) } = tree.data(node) {
            if belongs && tree.is_expression_node(*argument) {
                let constant = has_const_assertion(tree, *argument);
                proof {
                    assert(after == before.push(*argument));
                    if any_const(tree, before) {
                        let i = choose|i: int|
                            0 <= i < before.len() && const_asserted(tree, #[trigger] before[i]);
                        assert(const_asserted(tree, after[i]));
                    }
                    if constant {
                        assert(const_asserted(tree, after[before.len() as int]));
                    }
                    if any_const(tree, after) {
                        let i = choose|i: int|
                            0 <= i < after.len() && const_asserted(tree, #[trigger] after[i]);
                        if i < before.len() {
                            assert(const_asserted(tree, before[i]));
                        }
                    }
                }
                if constant {
                    *has_any_const = true;
                }
                returned.push(infer_expression_type(tree, *argument));
            }
        }
        assert(returned@ =~= types_of(tree, after));
        node = node + 1;
    }
    returned
}

/// The expressions that a function body returns.
pub open spec fn body_returns(tree: &SyntaxTree, body: FunctionBody) -> Seq<NodeId> {
    match body {
        FunctionBody::Block(block) => block_returns(tree, block, tree.size()),
        FunctionBody::Expression(expression) => seq![expression],
    }
}

/// Collects return types and tracks `as const` usage from a function body.
pub fn collect_return_info(tree: &SyntaxTree, body: &FunctionBody) -> (info: (
    Vec<TypeId>,
    bool,
))
    requires
        tree.well_formed(),
        tree.body_in_range(*body),
    ensures
        info.0@ == types_of(tree, body_returns(tree, *body)),
        info.1 == any_const(tree, body_returns(tree, *body)),
{
    let mut has_any_const = false;
    let returned = match body {
        FunctionBody::Block(block) => collect_block_returns(
            tree,
            *block,
            &mut has_any_const,
        ),
        FunctionBody::Expression(expression) => {
            let ghost expressions = seq![*expression];
            if has_const_assertion(tree, *expression) {
                has_any_const = true;
                assert(const_asserted(tree, expressions[0]));
            }
            let mut single: Vec<TypeId> = Vec::new();
            single.push(infer_expression_type(tree, *expression));
            assert(single@ =~= types_of(tree, expressions));
            single
        },
    };
    (returned, has_any_const)
}

proof fn lemma_innermost_is_expression(tree: &SyntaxTree, expression: NodeId)
    requires
        tree.well_formed(),
        tree.is_expression(expression),
    ensures
        tree.is_expression(innermost(tree, expression)),
    decreases tree.size() - expression,
{
    assert(tree.node_well_formed(expression));
    if let Some(inner) = wrapped_expression(tree.data_of(expression)) {
        lemma_innermost_is_expression(tree, inner);
    }
}

proof fn lemma_enclosing_body_in_range(tree: &SyntaxTree, node: NodeId)
    requires
        node < tree.size(),
    ensures
        enclosing_body(tree, node) matches Some(body) ==> body < tree.size(),
    decreases node,
{
    if let Some(parent) = tree.parent_of(node) {
        if parent < node {
            lemma_enclosing_body_in_range(tree, parent);
        }
    }
}

proof fn lemma_declarators_among_in_range(tree: &SyntaxTree, statements: Seq<NodeId>, count: nat)
    requires
        tree.well_formed(),
        ids_in_range(statements, tree.size()),
        count <= statements.len(),
    ensures
        ids_in_range(declarators_among(tree, statements, count), tree.size()),
    decreases count,
{
    if count > 0 {
        lemma_declarators_among_in_range(tree, statements, (count - 1) as nat);
        assert(tree.node_well_formed(statements[count - 1]));
    }
}

proof fn lemma_declarators_around_in_range(tree: &SyntaxTree, node: NodeId)
    requires
        tree.well_formed(),
        node < tree.size(),
    ensures
        ids_in_range(declarators_around(tree, node), tree.size()),
{
    lemma_enclosing_body_in_range(tree, node);
    if let Some(body) = enclosing_body(tree, node) {
        assert(tree.node_well_formed(body));
        if let NodeData::FunctionBody { statements } = tree.data_of(body) {
            lemma_declarators_among_in_range(tree, statements@, statements@.len());
        }
    }
}

proof fn lemma_first_settling_in_range(
    tree: &SyntaxTree,
    declarators: Seq<NodeId>,
    name: Seq<char>,
    count: nat,
)
    requires
        ids_in_range(declarators, tree.size()),
        count <= declarators.len(),
    ensures
        first_settling(tree, declarators, name, count) matches Some(found) ==> found < tree.size(),
    decreases count,
{
    if count > 0 {
        lemma_first_settling_in_range(tree, declarators, name, (count - 1) as nat);
    }
}

/// The type of a returned expression is one of the types of the tree.
pub proof fn lemma_returned_type_in_range(tree: &SyntaxTree, expression: NodeId, types: nat)
    requires
        tree.well_formed(),
        tree.typed_within(types),
        tree.is_expression(expression),
    ensures
        returned_type(tree, expression) < types,
{
    let inner = innermost(tree, expression);
    lemma_innermost_is_expression(tree, expression);
    assert(tree.node_typed_within(inner, types));
    if let NodeData::IdentifierExpression { name: Some(name) } = tree.data_of(inner) {
        let declarators = declarators_around(tree, inner);
        lemma_declarators_around_in_range(tree, inner);
        lemma_first_settling_in_range(tree, declarators, name@, declarators.len());
        if let Some(found) = first_settling(tree, declarators, name@, declarators.len()) {
            assert(tree.node_well_formed(found));
            if let Some(initializer) = initializer_of(tree, found) {
                lemma_innermost_is_expression(tree, initializer);
                assert(tree.node_typed_within(innermost(tree, initializer), types));
            }
        }
    }
}

proof fn lemma_block_returns_are_expressions(tree: &SyntaxTree, block: NodeId, count: nat)
    ensures
        forall|i: int|
            0 <= i < block_returns(tree, block, count).len() ==> tree.is_expression(
                #[trigger] block_returns(tree, block, count)[i],
            ),
    decreases count,
{
    if count > 0 {
        let before = block_returns(tree, block, (count - 1) as nat);
        let after = block_returns(tree, block, count);
        lemma_block_returns_are_expressions(tree, block, (count - 1) as nat);
        assert forall|i: int| 0 <= i < after.len() implies tree.is_expression(
            #[trigger] after[i],
        ) by {
            if i < before.len() {
                assert(after[i] == before[i]);
            }
        }
    }
}

/// The types that a function body returns are types of the tree.
pub proof fn lemma_body_types_in_range(tree: &SyntaxTree, body: FunctionBody, types: nat)
    requires
        tree.well_formed(),
        tree.typed_within(types),
        tree.body_in_range(body),
    ensures
        ids_in_range(types_of(tree, body_returns(tree, body)), types),
{
    let expressions = body_returns(tree, body);
    if let FunctionBody::Block(block) = body {
        lemma_block_returns_are_expressions(tree, block, tree.size());
    }
    assert forall|i: int| 0 <= i < expressions.len() implies (#[trigger] types_of(
        tree,
        expressions,
    )[i]) < types by {
        assert(tree.is_expression(expressions[i]));
        lemma_returned_type_in_range(tree, expressions[i], types);
    }
}

} // verus!

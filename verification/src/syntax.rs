//! The syntax tree that the rule reads.
//!
//! Nodes are numbered in document order, so a node comes after its parent.
use crate::types::{ids_are_in_range, ids_in_range, TypeId};
use biome_rowan::TextRange;
use vstd::prelude::*;

verus! {

/// The range of a piece of source text. The rule carries it along and reads
/// nothing in it, and nothing is claimed of it.
#[verifier::external_type_specification]
#[verifier::external_body]
pub struct ExTextRange(TextRange);

/// A syntax node: a position in [`SyntaxTree::nodes`].
pub type NodeId = usize;

/// The name in a type reference.
#[derive(Debug)]
pub enum EntityName {
    /// A plain identifier, with its text.
    Identifier(Option<String>),
    /// A qualified name.
    Qualified,
}

/// A type as it is written in the source.
#[derive(Debug)]
pub enum TsType {
    /// A reference to a named type.
    Reference(Option<EntityName>),
    Other,
}

/// How a function is written.
#[derive(Debug)]
pub enum FunctionKind {
    Declaration,
    ExportDefaultDeclaration,
    Expression,
    Arrow,
}

/// The body of a function: a block, or the expression of an arrow function.
#[derive(Debug)]
pub enum FunctionBody {
    Block(NodeId),
    Expression(NodeId),
}

/// A function.
#[derive(Debug)]
pub struct FunctionNode {
    pub kind: FunctionKind,
    pub name: Option<String>,
    pub is_generator: bool,
    pub is_async: bool,
    /// Where the return type annotation stands.
    pub annotation: Option<TextRange>,
    /// The inferred type of the function.
    pub ty: TypeId,
    pub body: Option<FunctionBody>,
}

/// A method of a class or of an object.
#[derive(Debug)]
pub struct MethodNode {
    /// The source text of a literal member name.
    pub name_token: Option<String>,
    /// The inferred type of the member, if it has a literal name.
    pub member_type: Option<TypeId>,
    pub is_generator: bool,
    pub is_async: bool,
    /// Where the return type annotation stands.
    pub annotation: Option<TextRange>,
    pub body: Option<NodeId>,
}

/// A getter whose name is known.
#[derive(Debug)]
pub struct GetterMember {
    /// The inferred type of the member.
    pub ty: TypeId,
    /// Whether there is a setter of the same name.
    pub has_matching_setter: bool,
}

/// A getter of a class or of an object.
#[derive(Debug)]
pub struct GetterNode {
    pub member: Option<GetterMember>,
    /// Where the return type annotation stands.
    pub annotation: Option<TextRange>,
    pub body: Option<NodeId>,
}

/// What a node is, as far as the rule tells nodes apart. Parts that are absent
/// in the source are `None`.
#[derive(Debug)]
pub enum NodeData {
    Function(FunctionNode),
    /// A function declaration without a body, as overloads have it.
    DeclareFunction { name: Option<String> },
    MethodClassMember(MethodNode),
    MethodObjectMember(MethodNode),
    /// A method of a class without a body, as overloads have it.
    MethodSignature { name_token: Option<String> },
    GetterClassMember(GetterNode),
    GetterObjectMember(GetterNode),
    ConstructorClassMember,
    SetterClassMember,
    SetterObjectMember,
    FunctionBody { statements: Vec<NodeId> },
    ReturnStatement { argument: Option<NodeId> },
    VariableStatement { declarators: Vec<NodeId> },
    /// A declarator. The name is absent when it binds a pattern.
    VariableDeclarator { name: Option<String>, initializer: Option<NodeId> },
    AsExpression { expression: Option<NodeId>, ty: Option<TsType> },
    SatisfiesExpression { expression: Option<NodeId> },
    TypeAssertionExpression { expression: Option<NodeId>, ty: Option<TsType> },
    ParenthesizedExpression { expression: Option<NodeId> },
    IdentifierExpression { name: Option<String> },
    /// Any other node.
    Other,
}

/// A syntax node.
#[derive(Debug)]
pub struct SyntaxNode {
    pub parent: Option<NodeId>,
    /// The inferred type of an expression. Other nodes have none.
    pub expression_type: Option<TypeId>,
    pub data: NodeData,
}

/// A syntax tree, in document order.
#[derive(Debug)]
pub struct SyntaxTree {
    pub nodes: Vec<SyntaxNode>,
}

impl SyntaxTree {
    /// The number of nodes.
    pub open spec fn size(&self) -> nat {
        self.nodes@.len()
    }

    /// What the node is.
    pub open spec fn data_of(&self, node: NodeId) -> NodeData {
        self.nodes@[node as int].data
    }

    /// The parent of the node, if it has one.
    pub open spec fn parent_of(&self, node: NodeId) -> Option<NodeId> {
        self.nodes@[node as int].parent
    }

    /// The node is there, and is an expression.
    pub open spec fn is_expression(&self, node: NodeId) -> bool {
        node < self.size() && self.nodes@[node as int].expression_type is Some
    }

    /// The type of an expression.
    pub open spec fn type_of(&self, node: NodeId) -> TypeId {
        self.nodes@[node as int].expression_type->0
    }

    /// The body of a function is a node of the tree.
    pub open spec fn body_in_range(&self, body: FunctionBody) -> bool {
        match body {
            FunctionBody::Block(block) => block < self.size(),
            FunctionBody::Expression(expression) => self.is_expression(expression),
        }
    }

    /// The part is absent, or is a node of the tree.
    pub open spec fn part_in_range(&self, part: Option<NodeId>) -> bool {
        match part {
            Some(node) => node < self.size(),
            None => true,
        }
    }

    /// The part is absent, or is an expression.
    pub open spec fn part_is_expression(&self, part: Option<NodeId>) -> bool {
        match part {
            Some(node) => self.is_expression(node),
            None => true,
        }
    }

    /// The part is absent, or is an expression that comes after `node`.
    pub open spec fn part_is_inner(&self, node: NodeId, part: Option<NodeId>) -> bool {
        match part {
            Some(inner) => node < inner && self.is_expression(inner),
            None => true,
        }
    }

    /// The node comes after its parent, and its parts are nodes of the tree.
    pub open spec fn node_well_formed(&self, node: NodeId) -> bool {
        &&& match self.parent_of(node) {
            Some(parent) => parent < node,
            None => true,
        }
        &&& match self.data_of(node) {
            NodeData::Function(function) => match function.body {
                Some(body) => self.body_in_range(body),
                None => true,
            },
            NodeData::MethodClassMember(method) => self.part_in_range(method.body),
            NodeData::MethodObjectMember(method) => self.part_in_range(method.body),
            NodeData::GetterClassMember(getter) => self.part_in_range(getter.body),
            NodeData::GetterObjectMember(getter) => self.part_in_range(getter.body),
            NodeData::FunctionBody { statements } => ids_in_range(statements@, self.size()),
            NodeData::ReturnStatement { argument } => self.part_in_range(argument),
            NodeData::VariableStatement { declarators } => ids_in_range(
                declarators@,
                self.size(),
            ),
            NodeData::VariableDeclarator { name: _, initializer } => self.part_is_expression(
                initializer,
            ),
            NodeData::AsExpression { expression, ty: _ } => self.part_is_inner(node, expression),
            NodeData::SatisfiesExpression { expression } => self.part_is_inner(node, expression),
            NodeData::TypeAssertionExpression { expression, ty: _ } => self.part_is_inner(
                node,
                expression,
            ),
            NodeData::ParenthesizedExpression { expression } => self.part_is_inner(
                node,
                expression,
            ),
            _ => true,
        }
    }

    /// Every node comes after its parent, and its parts are nodes of the tree.
    pub open spec fn well_formed(&self) -> bool {
        forall|node: NodeId| node < self.size() ==> #[trigger] self.node_well_formed(node)
    }

    /// The types of the node are among `types` types.
    pub open spec fn node_typed_within(&self, node: NodeId, types: nat) -> bool {
        &&& type_in_range(self.nodes@[node as int].expression_type, types)
        &&& match self.data_of(node) {
            NodeData::Function(function) => function.ty < types,
            NodeData::MethodClassMember(method) => type_in_range(method.member_type, types),
            NodeData::MethodObjectMember(method) => type_in_range(method.member_type, types),
            NodeData::GetterClassMember(getter) => getter_type_in_range(getter.member, types),
            NodeData::GetterObjectMember(getter) => getter_type_in_range(getter.member, types),
            _ => true,
        }
    }

    /// The types of all nodes are among `types` types.
    pub open spec fn typed_within(&self, types: nat) -> bool {
        forall|node: NodeId|
            node < self.size() ==> #[trigger] self.node_typed_within(node, types)
    }

    /// Builds a tree out of its nodes, unless a node comes before its parent
    /// or has a part that is not there.
    pub fn new(nodes: Vec<SyntaxNode>) -> (tree: Option<SyntaxTree>)
        ensures
            tree is Some <==> (SyntaxTree { nodes }).well_formed(),
            tree matches Some(t) ==> t == (SyntaxTree { nodes }),
    {
        let tree = SyntaxTree { nodes };
        let mut node: usize = 0;
        while node < tree.nodes.len()
            invariant
                tree == (SyntaxTree { nodes }),
                node <= tree.nodes@.len(),
                forall|i: NodeId| i < node ==> #[trigger] tree.node_well_formed(i),
            decreases tree.nodes@.len() - node,
        {
            if !tree.is_node_well_formed(node) {
                return None;
            }
            node = node + 1;
        }
        Some(tree)
    }

    /// Whether the types of all nodes are among `types` types.
    pub fn is_typed_within(&self, types: usize) -> (ok: bool)
        ensures
            ok == self.typed_within(types as nat),
    {
        let mut node: usize = 0;
        while node < self.nodes.len()
            invariant
                node <= self.nodes@.len(),
                forall|i: NodeId| i < node ==> #[trigger] self.node_typed_within(i, types as nat),
            decreases self.nodes@.len() - node,
        {
            if !self.is_node_typed_within(node, types) {
                return false;
            }
            node = node + 1;
        }
        true
    }

    fn is_node_typed_within(&self, node: NodeId, types: usize) -> (ok: bool)
        requires
            node < self.size(),
        ensures
            ok == self.node_typed_within(node, types as nat),
    {
        if !is_type_in_range(self.nodes[node].expression_type, types) {
            return false;
        }
        match &self.nodes[node].data {
            NodeData::Function(function) => function.ty < types,
            NodeData::MethodClassMember(method) | NodeData::MethodObjectMember(method) => {
                is_type_in_range(method.member_type, types)
            },
            NodeData::GetterClassMember(getter) | NodeData::GetterObjectMember(getter) => {
                match &getter.member {
                    Some(member) => member.ty < types,
                    None => true,
                }
            },
            _ => true,
        }
    }

    fn is_node_well_formed(&self, node: NodeId) -> (ok: bool)
        requires
            node < self.size(),
        ensures
            ok == self.node_well_formed(node),
    {
        let entry = &self.nodes[node];
        if let Some(parent) = entry.parent {
            if parent >= node {
                return false;
            }
        }
        match &entry.data {
            NodeData::Function(function) => match &function.body {
                Some(FunctionBody::Block(block)) => *block < self.nodes.len(),
                Some(FunctionBody::Expression(expression)) => self.is_expression_node(*expression),
                None => true,
            },
            NodeData::MethodClassMember(method) | NodeData::MethodObjectMember(method) => {
                self.is_part_in_range(method.body)
            },
            NodeData::GetterClassMember(getter) | NodeData::GetterObjectMember(getter) => {
                self.is_part_in_range(getter.body)
            },
            NodeData::FunctionBody { statements } => {
                ids_are_in_range(statements, self.nodes.len())
            },
            NodeData::ReturnStatement { argument } => self.is_part_in_range(*argument),
            NodeData::VariableStatement { declarators } => {
                ids_are_in_range(declarators, self.nodes.len())
            },
            NodeData::VariableDeclarator { initializer, .. } => match initializer {
                Some(expression) => self.is_expression_node(*expression),
                None => true,
            },
            NodeData::AsExpression { expression, .. }
            | NodeData::SatisfiesExpression { expression }
            | NodeData::TypeAssertionExpression { expression, .. }
            | NodeData::ParenthesizedExpression { expression } => match expression {
                Some(inner) => node < *inner && self.is_expression_node(*inner),
                None => true,
            },
            _ => true,
        }
    }

    fn is_part_in_range(&self, part: Option<NodeId>) -> (ok: bool)
        ensures
            ok == self.part_in_range(part),
    {
        match part {
            Some(node) => node < self.nodes.len(),
            None => true,
        }
    }

    /// Whether the node is there, and is an expression.
    pub fn is_expression_node(&self, node: NodeId) -> (found: bool)
        ensures
            found == self.is_expression(node),
    {
        node < self.nodes.len() && self.nodes[node].expression_type.is_some()
    }

    /// What the node is.
    pub fn data(&self, node: NodeId) -> (data: &NodeData)
        requires
            node < self.size(),
        ensures
            *data == self.data_of(node),
    {
        &self.nodes[node].data
    }

    /// The type of an expression.
    pub fn type_of_expression(&self, expression: NodeId) -> (ty: TypeId)
        requires
            self.is_expression(expression),
        ensures
            ty == self.type_of(expression),
    {
        self.nodes[expression].expression_type.unwrap()
    }
}

/// The type is absent, or one of `types` types.
pub open spec fn type_in_range(ty: Option<TypeId>, types: nat) -> bool {
    match ty {
        Some(found) => found < types,
        None => true,
    }
}

/// The type of the getter is not known, or one of `types` types.
pub open spec fn getter_type_in_range(member: Option<GetterMember>, types: nat) -> bool {
    match member {
        Some(found) => found.ty < types,
        None => true,
    }
}

fn is_type_in_range(ty: Option<TypeId>, types: usize) -> (ok: bool)
    ensures
        ok == type_in_range(ty, types as nat),
{
    match ty {
        Some(found) => found < types,
        None => true,
    }
}

} // verus!

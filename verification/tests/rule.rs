//! Checking functions, methods and getters.
use biome_rowan::{TextRange, TextSize};
use misleading_return_type::returned::{
    collect_block_returns, collect_return_info, declarator_matches_name_with_const,
    has_const_assertion, identifier_refers_to_const_assertion, infer_expression_type,
    init_has_direct_const_assertion, is_const_reference_type, is_nested_function_like,
    resolve_identifier_initializer_type, unwrap_type_wrappers,
};
use misleading_return_type::rule::{
    diagnostic, find_reported_type, is_class_method_overload_implementation, is_misleading,
    is_overload_implementation, run, run_for_function, run_for_member, run_for_member_with_body,
    RuleState,
};
use misleading_return_type::syntax::{
    EntityName, FunctionBody, FunctionKind, FunctionNode, GetterMember, GetterNode, MethodNode,
    NodeData, NodeId, SyntaxNode, SyntaxTree, TsType,
};
use misleading_return_type::types::{
    Literal, ReturnType, TypeData, TypeGraph, TypeId, TypeMember, TypeMemberKind, TypeNode,
};

const STRING: TypeId = 0;
const NUMBER: TypeId = 1;
const BOOLEAN: TypeId = 2;
const LOADING: TypeId = 3;
const IDLE: TypeId = 4;
const OK: TypeId = 5;
const NOT_FOUND: TypeId = 6;
const TRUE: TypeId = 7;
const FALSE: TypeId = 8;
const VOID: TypeId = 9;
const ANY: TypeId = 10;
const UNDEFINED: TypeId = 11;
const PROMISE: TypeId = 12;
const STRING_OR_UNDEFINED: TypeId = 13;
const LOADING_OR_IDLE: TypeId = 14;
const LITERALS_OR_STRING: TypeId = 15;
const PROMISE_STRING: TypeId = 16;
const UNKNOWN: TypeId = 17;
const STRING_OR_UNKNOWN: TypeId = 18;
const TYPE_PARAM: TypeId = 19;
const BRANDED: TypeId = 20;
const OBJECT: TypeId = 21;
const OBJECT_LITERAL: TypeId = 22;
const IDLE_OR_ANY: TypeId = 23;
const PROMISE_ANY: TypeId = 24;
const LITERALS_OR_UNDEFINED: TypeId = 25;
/// The function that returns type `t` has the type `FUNCTION + t`.
const FUNCTION: TypeId = 26;

fn types() -> TypeGraph {
    let string = |text: &str| TypeData::Literal(Literal::String(text.to_string()));
    let number = |text: &str| TypeData::Literal(Literal::Number(text.to_string()));
    let boolean = |value| TypeData::Literal(Literal::Boolean(value));
    let union = |variants: &[TypeId]| TypeData::Union { variants: variants.to_vec() };
    let generic = |name: &str| TypeData::Generic { name: name.to_string(), constraint: None };
    let member = |ty| vec![TypeMember { kind: TypeMemberKind::Named("s".to_string()), ty }];
    let mut types = vec![
        TypeData::String,
        TypeData::Number,
        TypeData::Boolean,
        string("loading"),
        string("idle"),
        number("200"),
        number("404"),
        boolean(true),
        boolean(false),
        TypeData::VoidKeyword,
        TypeData::AnyKeyword,
        TypeData::Undefined,
        generic("Promise"),
        union(&[STRING, UNDEFINED]),
        union(&[LOADING, IDLE]),
        union(&[LOADING, IDLE, STRING]),
        TypeData::InstanceOf { ty: PROMISE, type_parameters: vec![STRING] },
        TypeData::UnknownKeyword,
        union(&[LOADING, IDLE, UNKNOWN]),
        generic("T"),
        TypeData::Intersection { types: vec![STRING, TYPE_PARAM] },
        TypeData::Object { members: member(STRING) },
        TypeData::Literal(Literal::Object(member(LOADING))),
        union(&[IDLE, ANY]),
        TypeData::InstanceOf { ty: PROMISE, type_parameters: vec![ANY] },
        union(&[LOADING, IDLE, UNDEFINED]),
    ];
    for ty in 0..FUNCTION {
        types.push(TypeData::Function {
            type_parameters: vec![],
            parameters: vec![],
            return_type: ReturnType::Type(ty),
        });
    }
    let scope = (0..types.len()).map(Some).collect();
    let nodes = types.into_iter().map(|data| TypeNode { scope: 0, data }).collect();
    TypeGraph::new(nodes, vec![scope]).unwrap()
}

fn range() -> TextRange {
    TextRange::new(TextSize::from(10), TextSize::from(18))
}

/// Builds trees in document order.
struct Builder {
    nodes: Vec<SyntaxNode>,
}

impl Builder {
    fn new() -> Self {
        let root = SyntaxNode { parent: None, expression_type: None, data: NodeData::Other };
        Builder { nodes: vec![root] }
    }

    fn add(&mut self, parent: NodeId, data: NodeData) -> NodeId {
        self.nodes.push(SyntaxNode { parent: Some(parent), expression_type: None, data });
        self.nodes.len() - 1
    }

    fn expression(&mut self, parent: NodeId, ty: TypeId, data: NodeData) -> NodeId {
        let node = self.add(parent, data);
        self.nodes[node].expression_type = Some(ty);
        node
    }

    fn literal(&mut self, parent: NodeId, ty: TypeId) -> NodeId {
        self.expression(parent, ty, NodeData::Other)
    }

    fn identifier(&mut self, parent: NodeId, name: &str, ty: TypeId) -> NodeId {
        let name = Some(name.to_string());
        self.expression(parent, ty, NodeData::IdentifierExpression { name })
    }

    /// `<expression> as const`, for a literal of this type.
    fn as_const(&mut self, parent: NodeId, ty: TypeId) -> NodeId {
        let node = self.expression(
            parent,
            ty,
            NodeData::AsExpression { expression: None, ty: Some(const_type()) },
        );
        let inner = self.literal(node, ty);
        if let NodeData::AsExpression { expression, .. } = &mut self.nodes[node].data {
            *expression = Some(inner);
        }
        node
    }

    fn parenthesized(&mut self, parent: NodeId, ty: TypeId) -> NodeId {
        let node =
            self.expression(parent, ty, NodeData::ParenthesizedExpression { expression: None });
        let inner = self.literal(node, ty);
        self.wrap(node, inner);
        node
    }

    fn wrap(&mut self, node: NodeId, inner: NodeId) {
        match &mut self.nodes[node].data {
            NodeData::ParenthesizedExpression { expression }
            | NodeData::SatisfiesExpression { expression }
            | NodeData::AsExpression { expression, .. }
            | NodeData::TypeAssertionExpression { expression, .. } => *expression = Some(inner),
            _ => panic!("not a wrapper"),
        }
    }

    fn block(&mut self, parent: NodeId) -> NodeId {
        self.add(parent, NodeData::FunctionBody { statements: vec![] })
    }

    fn statement(&mut self, block: NodeId, data: NodeData) -> NodeId {
        let node = self.add(block, data);
        if let NodeData::FunctionBody { statements } = &mut self.nodes[block].data {
            statements.push(node);
        }
        node
    }

    /// A return statement in the block, whose argument is still to come.
    fn ret(&mut self, block: NodeId) -> NodeId {
        self.statement(block, NodeData::ReturnStatement { argument: None })
    }

    fn argue(&mut self, statement: NodeId, expression: NodeId) {
        self.nodes[statement].data = NodeData::ReturnStatement { argument: Some(expression) };
    }

    fn return_literal(&mut self, block: NodeId, ty: TypeId) {
        let statement = self.ret(block);
        let expression = self.literal(statement, ty);
        self.argue(statement, expression);
    }

    /// `const <name>;` in the block. Gives the declarator.
    fn declare(&mut self, block: NodeId, name: &str) -> NodeId {
        let statement = self.statement(block, NodeData::VariableStatement { declarators: vec![] });
        let declarator = self.add(
            statement,
            NodeData::VariableDeclarator { name: Some(name.to_string()), initializer: None },
        );
        self.nodes[statement].data = NodeData::VariableStatement { declarators: vec![declarator] };
        declarator
    }

    fn initialize(&mut self, declarator: NodeId, expression: NodeId) {
        if let NodeData::VariableDeclarator { initializer, .. } = &mut self.nodes[declarator].data {
            *initializer = Some(expression);
        }
    }

    /// A function with this return type that returns literals of these types.
    fn function(&mut self, parent: NodeId, annotated: TypeId, returned: &[TypeId]) -> NodeId {
        let node = self.add(parent, NodeData::Function(function_node(annotated)));
        let block = self.block(node);
        for ty in returned {
            self.return_literal(block, *ty);
        }
        self.edit(node, |function| function.body = Some(FunctionBody::Block(block)));
        node
    }

    fn edit(&mut self, node: NodeId, change: impl FnOnce(&mut FunctionNode)) {
        if let NodeData::Function(function) = &mut self.nodes[node].data {
            change(function);
        }
    }

    fn finish(self) -> SyntaxTree {
        SyntaxTree::new(self.nodes).unwrap()
    }
}

fn const_type() -> TsType {
    TsType::Reference(Some(EntityName::Identifier(Some("const".to_string()))))
}

fn function_node(annotated: TypeId) -> FunctionNode {
    FunctionNode {
        kind: FunctionKind::Declaration,
        name: Some("f".to_string()),
        is_generator: false,
        is_async: false,
        annotation: Some(range()),
        ty: FUNCTION + annotated,
        body: None,
    }
}

fn method_node(annotated: TypeId, body: NodeId) -> MethodNode {
    MethodNode {
        name_token: Some("m".to_string()),
        member_type: Some(FUNCTION + annotated),
        is_generator: false,
        is_async: false,
        annotation: Some(range()),
        body: Some(body),
    }
}

/// What is reported for a function with this return type that returns literals of these types.
fn check(annotated: TypeId, returned: &[TypeId]) -> Option<RuleState> {
    check_edited(annotated, returned, |_| {})
}

fn check_edited(
    annotated: TypeId,
    returned: &[TypeId],
    change: impl FnOnce(&mut FunctionNode),
) -> Option<RuleState> {
    let mut builder = Builder::new();
    let node = builder.function(0, annotated, returned);
    builder.edit(node, change);
    let tree = builder.finish();
    let graph = types();
    assert!(tree.is_typed_within(graph.types.len()));
    let state = run(&graph, &tree, node);
    let again = run_for_function(&graph, &tree, node);
    assert_eq!(state.is_some(), again.is_some());
    state
}

fn advice(state: &RuleState) -> String {
    diagnostic(&types(), state).notes.pop().unwrap()
}

#[test]
fn string_function_with_two_literals_is_reported() {
    let state = check(STRING, &[LOADING, IDLE]).unwrap();
    assert_eq!(state.annotation_range, range());
    assert_eq!(state.returns, vec![LOADING, IDLE]);
    assert_eq!(state.effective_return_ty, STRING);
    assert!(!state.has_any_const_return);
    assert_eq!(advice(&state), "Consider using \"loading\" | \"idle\" as the return type.");
}

#[test]
fn number_function_with_two_literals_is_reported() {
    let state = check(NUMBER, &[OK, NOT_FOUND]).unwrap();
    assert_eq!(advice(&state), "Consider using 200 | 404 as the return type.");
}

#[test]
fn class_method_with_two_literals_is_reported() {
    let mut builder = Builder::new();
    let members = builder.add(0, NodeData::Other);
    let method = builder.add(members, NodeData::Other);
    let block = builder.block(method);
    builder.return_literal(block, LOADING);
    builder.return_literal(block, IDLE);
    builder.nodes[method].data = NodeData::MethodClassMember(method_node(STRING, block));
    let state = run(&types(), &builder.finish(), method).unwrap();
    assert_eq!(state.returns, vec![LOADING, IDLE]);
}

#[test]
fn object_method_with_two_literals_is_reported() {
    let mut builder = Builder::new();
    let method = builder.add(0, NodeData::Other);
    let block = builder.block(method);
    builder.return_literal(block, LOADING);
    builder.return_literal(block, IDLE);
    builder.nodes[method].data = NodeData::MethodObjectMember(method_node(STRING, block));
    assert!(run(&types(), &builder.finish(), method).is_some());
}

#[test]
fn functions_without_annotation_are_not_reported() {
    assert!(check_edited(STRING, &[LOADING, IDLE], |f| f.annotation = None).is_none());
    assert!(check_edited(STRING, &[LOADING], |f| f.annotation = None).is_none());
}

#[test]
fn void_functions_are_not_reported() {
    assert!(check(VOID, &[]).is_none());
    assert!(check(VOID, &[UNDEFINED]).is_none());
}

#[test]
fn single_literals_are_not_reported() {
    let mut builder = Builder::new();
    let method = builder.add(0, NodeData::Other);
    let block = builder.block(method);
    builder.return_literal(block, LOADING);
    builder.nodes[method].data = NodeData::MethodClassMember(method_node(STRING, block));
    assert!(run(&types(), &builder.finish(), method).is_none());
    assert!(check(STRING, &[LOADING]).is_none());
    assert!(check(LOADING_OR_IDLE, &[LOADING]).is_some());
}

#[test]
fn functions_without_body_are_not_reported() {
    assert!(check_edited(STRING, &[LOADING, IDLE], |f| f.body = None).is_none());
}

#[test]
fn generators_are_not_reported() {
    assert!(check_edited(STRING, &[LOADING, IDLE], |f| f.is_generator = true).is_none());
}

#[test]
fn escape_hatches_are_not_reported() {
    assert!(check(ANY, &[LOADING, IDLE]).is_none());
    assert!(check(UNKNOWN, &[LOADING, IDLE]).is_none());
    assert!(check_edited(PROMISE_ANY, &[LOADING, IDLE], |f| f.is_async = true).is_none());
}

#[test]
fn both_booleans_are_not_reported() {
    assert!(check(BOOLEAN, &[TRUE, FALSE]).is_none());
    let state = check(BOOLEAN, &[TRUE, TRUE]).unwrap();
    assert_eq!(advice(&state), "Consider using true | true as the return type.");
}

#[test]
fn any_among_the_returns_is_not_reported() {
    assert!(check(STRING, &[LOADING, ANY]).is_none());
    assert!(check(STRING, &[LOADING, IDLE_OR_ANY]).is_none());
}

#[test]
fn unions_with_unknown_are_not_reported() {
    assert!(check(STRING_OR_UNKNOWN, &[LOADING]).is_none());
}

#[test]
fn undefined_for_callers_is_not_reported() {
    assert!(check(STRING_OR_UNDEFINED, &[LOADING, IDLE]).is_none());
    assert!(check(STRING_OR_UNDEFINED, &[LOADING, UNDEFINED]).is_some());
    let state = check(LITERALS_OR_UNDEFINED, &[LOADING, UNDEFINED]).unwrap();
    assert_eq!(
        advice(&state),
        "Narrow the return type to match what the function actually returns."
    );
}

#[test]
fn intersections_with_type_parameters_are_not_reported() {
    let graph = types();
    assert!(!is_misleading(&graph, STRING, &vec![LOADING, BRANDED], false));
    assert!(!is_misleading(&graph, STRING, &vec![LOADING, BRANDED], true));
}

#[test]
fn property_literals_are_reported_with_const_only() {
    let graph = types();
    assert!(!is_misleading(&graph, OBJECT, &vec![OBJECT_LITERAL], false));
    assert!(is_misleading(&graph, OBJECT, &vec![OBJECT_LITERAL], true));
}

#[test]
fn absorbed_literals_do_not_hide_the_primitive() {
    let state = check(LITERALS_OR_STRING, &[LOADING, IDLE]).unwrap();
    assert_eq!(state.effective_return_ty, STRING);
}

#[test]
fn async_functions_are_compared_inside_the_promise() {
    let state = check_edited(PROMISE_STRING, &[LOADING, IDLE], |f| f.is_async = true).unwrap();
    assert_eq!(state.effective_return_ty, STRING);
    assert!(check(PROMISE_STRING, &[LOADING, IDLE]).is_none());
    let graph = types();
    assert_eq!(
        find_reported_type(&graph, FUNCTION + PROMISE_STRING, true, &vec![LOADING, IDLE], false),
        find_reported_type(&graph, FUNCTION + STRING, false, &vec![LOADING, IDLE], false)
    );
}

#[test]
fn the_order_of_returns_does_not_matter() {
    let cases: [&[TypeId]; 4] =
        [&[LOADING, IDLE], &[LOADING, STRING], &[LOADING, ANY], &[LOADING, OK]];
    let graph = types();
    for returned in cases {
        let reversed: Vec<TypeId> = returned.iter().rev().copied().collect();
        for annotated in [STRING, LOADING_OR_IDLE, STRING_OR_UNDEFINED] {
            assert_eq!(
                is_misleading(&graph, annotated, &returned.to_vec(), false),
                is_misleading(&graph, annotated, &reversed, false)
            );
        }
    }
}

#[test]
fn narrowed_annotations_are_not_reported_again() {
    let state = check(LOADING_OR_IDLE, &[IDLE]).unwrap();
    assert_eq!(advice(&state), "Consider using \"idle\" as the return type.");
    assert!(check(IDLE, &[IDLE]).is_none());
}

#[test]
fn spelled_out_annotations_are_not_reported_again() {
    assert!(check(STRING, &[LOADING, IDLE]).is_some());
    assert!(check(LOADING_OR_IDLE, &[LOADING, IDLE]).is_none());
}

#[test]
fn arrow_functions_may_return_an_expression() {
    let mut builder = Builder::new();
    let node = builder.add(0, NodeData::Function(function_node(LOADING_OR_IDLE)));
    let expression = builder.literal(node, LOADING);
    builder.edit(node, |function| {
        function.kind = FunctionKind::Arrow;
        function.body = Some(FunctionBody::Expression(expression));
    });
    let tree = builder.finish();
    let state = run(&types(), &tree, node).unwrap();
    assert_eq!(state.returns, vec![LOADING]);
    let (returned, constant) = collect_return_info(&tree, &FunctionBody::Expression(expression));
    assert_eq!((returned, constant), (vec![LOADING], false));
}

#[test]
fn overload_implementations_are_not_reported() {
    let graph = types();
    let mut builder = Builder::new();
    builder.add(0, NodeData::DeclareFunction { name: Some("f".to_string()) });
    let node = builder.function(0, STRING, &[LOADING, IDLE]);
    let tree = builder.finish();
    assert!(is_overload_implementation(&tree, node));
    assert!(run(&graph, &tree, node).is_none());

    let mut builder = Builder::new();
    let signature = builder.add(0, NodeData::Function(function_node(STRING)));
    let node = builder.function(0, STRING, &[LOADING, IDLE]);
    let tree = builder.finish();
    assert!(is_overload_implementation(&tree, node));
    assert!(!is_overload_implementation(&tree, signature));
    assert!(run(&graph, &tree, node).is_none());
}

#[test]
fn other_functions_are_no_overloads() {
    let graph = types();
    let mut builder = Builder::new();
    builder.add(0, NodeData::DeclareFunction { name: Some("g".to_string()) });
    let inner = builder.add(0, NodeData::Other);
    builder.add(inner, NodeData::DeclareFunction { name: Some("f".to_string()) });
    let other = builder.function(0, STRING, &[LOADING, IDLE]);
    let node = builder.function(0, STRING, &[LOADING, IDLE]);
    let tree = builder.finish();
    assert!(!is_overload_implementation(&tree, node));
    assert!(run(&graph, &tree, node).is_some());
    assert!(run(&graph, &tree, other).is_some());

    let mut builder = Builder::new();
    builder.add(0, NodeData::DeclareFunction { name: None });
    let node = builder.function(0, STRING, &[LOADING, IDLE]);
    builder.edit(node, |function| function.name = None);
    assert!(run(&graph, &builder.finish(), node).is_some());
}

#[test]
fn class_method_overload_implementations_are_not_reported() {
    let graph = types();
    for (name, reported) in [("m", false), ("n", true)] {
        let mut builder = Builder::new();
        let members = builder.add(0, NodeData::Other);
        builder.add(members, NodeData::MethodSignature { name_token: Some(name.to_string()) });
        let method = builder.add(members, NodeData::Other);
        let block = builder.block(method);
        builder.return_literal(block, LOADING);
        builder.return_literal(block, IDLE);
        builder.nodes[method].data = NodeData::MethodClassMember(method_node(STRING, block));
        let tree = builder.finish();
        assert_eq!(is_class_method_overload_implementation(&tree, method), !reported);
        assert_eq!(run(&graph, &tree, method).is_some(), reported);
    }
}

#[test]
fn methods_without_a_literal_name_are_not_reported() {
    let graph = types();
    let changes: [fn(&mut MethodNode); 4] = [
        |method| method.member_type = None,
        |method| method.is_generator = true,
        |method| method.annotation = None,
        |method| method.body = None,
    ];
    for change in changes {
        let mut builder = Builder::new();
        let method = builder.add(0, NodeData::Other);
        let block = builder.block(method);
        builder.return_literal(block, LOADING);
        builder.return_literal(block, IDLE);
        let mut data = method_node(STRING, block);
        change(&mut data);
        builder.nodes[method].data = NodeData::MethodObjectMember(data);
        assert!(run(&graph, &builder.finish(), method).is_none());
    }
}

#[test]
fn getters_are_reported_unless_there_is_a_setter() {
    let graph = types();
    for has_matching_setter in [false, true] {
        for class in [false, true] {
            let mut builder = Builder::new();
            let getter = builder.add(0, NodeData::Other);
            let block = builder.block(getter);
            builder.return_literal(block, LOADING);
            builder.return_literal(block, IDLE);
            let data = GetterNode {
                member: Some(GetterMember { ty: FUNCTION + STRING, has_matching_setter }),
                annotation: Some(range()),
                body: Some(block),
            };
            builder.nodes[getter].data = if class {
                NodeData::GetterClassMember(data)
            } else {
                NodeData::GetterObjectMember(data)
            };
            let state = run(&graph, &builder.finish(), getter);
            assert_eq!(state.is_some(), !has_matching_setter);
        }
    }
}

#[test]
fn getters_without_a_name_are_not_reported() {
    let mut builder = Builder::new();
    let getter = builder.add(0, NodeData::Other);
    let block = builder.block(getter);
    builder.return_literal(block, LOADING);
    builder.return_literal(block, IDLE);
    let data = GetterNode { member: None, annotation: Some(range()), body: Some(block) };
    builder.nodes[getter].data = NodeData::GetterClassMember(data);
    assert!(run(&types(), &builder.finish(), getter).is_none());
}

#[test]
fn other_nodes_are_not_reported() {
    let mut builder = Builder::new();
    builder.function(0, STRING, &[LOADING, IDLE]);
    let tree = builder.finish();
    assert!(run(&types(), &tree, 0).is_none());
    assert!(run_for_function(&types(), &tree, 0).is_none());
    assert!(!is_overload_implementation(&tree, 0));
    assert!(!is_class_method_overload_implementation(&tree, 0));
}

#[test]
fn nested_functions_return_for_themselves() {
    let mut builder = Builder::new();
    let outer = builder.function(0, STRING, &[LOADING]);
    let block = outer + 1;
    let inner = builder.function(block, STRING, &[OK, NOT_FOUND]);
    builder.return_literal(block, IDLE);
    let tree = builder.finish();
    let mut constant = false;
    assert_eq!(collect_block_returns(&tree, block, &mut constant), vec![LOADING, IDLE]);
    assert_eq!(collect_block_returns(&tree, inner + 1, &mut constant), vec![OK, NOT_FOUND]);
    assert!(!constant);
    assert!(run(&types(), &tree, outer).is_some());
    assert!(run(&types(), &tree, inner).is_none());
}

#[test]
fn nested_members_are_told_apart() {
    let function = |kind| {
        let mut node = function_node(STRING);
        node.kind = kind;
        NodeData::Function(node)
    };
    assert!(is_nested_function_like(&function(FunctionKind::Declaration)));
    assert!(is_nested_function_like(&function(FunctionKind::Expression)));
    assert!(is_nested_function_like(&function(FunctionKind::Arrow)));
    assert!(!is_nested_function_like(&function(FunctionKind::ExportDefaultDeclaration)));
    assert!(is_nested_function_like(&NodeData::ConstructorClassMember));
    assert!(is_nested_function_like(&NodeData::SetterClassMember));
    assert!(is_nested_function_like(&NodeData::SetterObjectMember));
    assert!(is_nested_function_like(&NodeData::MethodClassMember(method_node(STRING, 0))));
    assert!(is_nested_function_like(&NodeData::MethodObjectMember(method_node(STRING, 0))));
    assert!(!is_nested_function_like(&NodeData::Other));
    assert!(!is_nested_function_like(&NodeData::DeclareFunction { name: None }));
}

#[test]
fn bare_returns_do_not_count() {
    let mut builder = Builder::new();
    let node = builder.function(0, STRING, &[]);
    builder.ret(node + 1);
    let statement = builder.ret(node + 1);
    let pattern = builder.add(statement, NodeData::Other);
    builder.argue(statement, pattern);
    let mut constant = true;
    assert!(collect_block_returns(&builder.finish(), node + 1, &mut constant).is_empty());
    assert!(constant);
}

#[test]
fn const_is_told_by_its_name() {
    let reference = |text: &str| {
        Some(TsType::Reference(Some(EntityName::Identifier(Some(text.to_string())))))
    };
    assert!(is_const_reference_type(&reference("const")));
    assert!(!is_const_reference_type(&reference("constant")));
    assert!(!is_const_reference_type(&Some(TsType::Reference(Some(EntityName::Qualified)))));
    assert!(!is_const_reference_type(&Some(TsType::Reference(None))));
    assert!(!is_const_reference_type(&Some(TsType::Other)));
    assert!(!is_const_reference_type(&None));
}

#[test]
fn const_assertions_are_reported_for_one_literal() {
    let mut builder = Builder::new();
    let node = builder.function(0, STRING, &[]);
    let statement = builder.ret(node + 1);
    let expression = builder.as_const(statement, LOADING);
    builder.argue(statement, expression);
    let state = run(&types(), &builder.finish(), node).unwrap();
    assert!(state.has_any_const_return);
    assert_eq!(state.returns, vec![LOADING]);
    assert_eq!(advice(&state), "Consider using \"loading\" as the return type.");
}

#[test]
fn wrappers_are_looked_through() {
    let mut builder = Builder::new();
    let outer =
        builder.expression(0, STRING, NodeData::SatisfiesExpression { expression: None });
    let inner = builder.parenthesized(outer, LOADING);
    builder.wrap(outer, inner);
    let empty = builder.expression(
        0,
        IDLE,
        NodeData::TypeAssertionExpression { expression: None, ty: Some(const_type()) },
    );
    let around = builder.expression(
        0,
        STRING,
        NodeData::TypeAssertionExpression { expression: None, ty: Some(TsType::Other) },
    );
    let constant = builder.as_const(around, LOADING);
    builder.wrap(around, constant);
    let parentheses =
        builder.expression(0, STRING, NodeData::ParenthesizedExpression { expression: None });
    let inside = builder.as_const(parentheses, LOADING);
    builder.wrap(parentheses, inside);
    let tree = builder.finish();
    assert_eq!(unwrap_type_wrappers(&tree, outer), inner + 1);
    assert_eq!(infer_expression_type(&tree, outer), LOADING);
    assert_eq!(unwrap_type_wrappers(&tree, empty), empty);
    assert!(has_const_assertion(&tree, empty));
    assert!(!has_const_assertion(&tree, outer));
    // Another assertion around `as const` hides it, and parentheses do not.
    assert!(!has_const_assertion(&tree, around));
    assert!(!init_has_direct_const_assertion(&tree, around));
    assert!(has_const_assertion(&tree, parentheses));
    assert!(init_has_direct_const_assertion(&tree, parentheses));
}

#[test]
fn variables_bound_to_const_keep_their_literal() {
    let mut builder = Builder::new();
    let node = builder.function(0, STRING, &[]);
    let block = node + 1;
    let declarator = builder.declare(block, "x");
    let initializer = builder.as_const(declarator, LOADING);
    builder.initialize(declarator, initializer);
    let statement = builder.ret(block);
    let used = builder.identifier(statement, "x", STRING);
    builder.argue(statement, used);
    let statement = builder.ret(block);
    let other = builder.identifier(statement, "y", STRING);
    builder.argue(statement, other);
    let tree = builder.finish();
    assert!(identifier_refers_to_const_assertion(&tree, used));
    assert!(!identifier_refers_to_const_assertion(&tree, other));
    assert!(!identifier_refers_to_const_assertion(&tree, node));
    assert!(declarator_matches_name_with_const(&tree, declarator, &"x".to_string()));
    assert!(!declarator_matches_name_with_const(&tree, declarator, &"y".to_string()));
    assert_eq!(resolve_identifier_initializer_type(&tree, used), Some(LOADING));
    assert_eq!(resolve_identifier_initializer_type(&tree, other), None);
    assert_eq!(infer_expression_type(&tree, used), LOADING);
    assert_eq!(infer_expression_type(&tree, other), STRING);
    let (returned, constant) = collect_return_info(&tree, &FunctionBody::Block(block));
    assert_eq!((returned, constant), (vec![LOADING, STRING], true));
}

#[test]
fn initializers_are_searched_until_one_is_missing() {
    let mut builder = Builder::new();
    let node = builder.function(0, STRING, &[]);
    let block = node + 1;
    let plain = builder.declare(block, "x");
    let initializer = builder.literal(plain, IDLE);
    builder.initialize(plain, initializer);
    let constant = builder.declare(block, "x");
    let initializer = builder.as_const(constant, LOADING);
    builder.initialize(constant, initializer);
    let missing = builder.declare(block, "y");
    let late = builder.declare(block, "y");
    let initializer = builder.as_const(late, LOADING);
    builder.initialize(late, initializer);
    let statement = builder.ret(block);
    let x = builder.identifier(statement, "x", STRING);
    let y = builder.identifier(statement, "y", STRING);
    let tree = builder.finish();
    assert_eq!(resolve_identifier_initializer_type(&tree, x), Some(LOADING));
    assert_eq!(resolve_identifier_initializer_type(&tree, y), None);
    assert!(identifier_refers_to_const_assertion(&tree, y));
    assert!(!declarator_matches_name_with_const(&tree, missing, &"y".to_string()));
}

#[test]
fn identifiers_are_followed_once_when_looking_for_const() {
    let mut builder = Builder::new();
    let node = builder.function(0, STRING, &[]);
    let block = node + 1;
    let first = builder.declare(block, "x");
    let initializer = builder.as_const(first, LOADING);
    builder.initialize(first, initializer);
    let second = builder.declare(block, "y");
    let alias = builder.identifier(second, "x", STRING);
    builder.initialize(second, alias);
    let statement = builder.ret(block);
    let used = builder.identifier(statement, "y", STRING);
    builder.argue(statement, used);
    let tree = builder.finish();
    assert!(!has_const_assertion(&tree, used));
    assert!(has_const_assertion(&tree, alias));
    // The alias is asserted `as const`, and has the type of the identifier.
    assert_eq!(resolve_identifier_initializer_type(&tree, used), Some(STRING));
}

#[test]
fn identifiers_outside_of_functions_are_not_followed() {
    let mut builder = Builder::new();
    let used = builder.identifier(0, "x", STRING);
    let tree = builder.finish();
    assert!(!has_const_assertion(&tree, used));
    assert_eq!(resolve_identifier_initializer_type(&tree, used), None);
}

#[test]
fn bodies_can_be_checked_directly() {
    let graph = types();
    let mut builder = Builder::new();
    let node = builder.function(0, STRING, &[LOADING, IDLE]);
    let tree = builder.finish();
    let ty = FUNCTION + STRING;
    let body = FunctionBody::Block(node + 1);
    assert!(run_for_member(&graph, &tree, range(), ty, false, node + 1).is_some());
    assert!(run_for_member_with_body(&graph, &tree, range(), ty, false, &body).is_some());
    assert!(run_for_member(&graph, &tree, range(), STRING, false, node + 1).is_none());
}

#[test]
fn trees_with_broken_links_are_refused() {
    let node = |parent, data| SyntaxNode { parent, expression_type: None, data };
    let only = |data| SyntaxTree::new(vec![node(None, data)]);
    assert!(SyntaxTree::new(vec![]).is_some());
    assert!(only(NodeData::Other).is_some());
    assert!(SyntaxTree::new(vec![node(Some(0), NodeData::Other)]).is_none());
    assert!(only(NodeData::FunctionBody { statements: vec![1] }).is_none());
    assert!(only(NodeData::VariableStatement { declarators: vec![1] }).is_none());
    assert!(only(NodeData::ReturnStatement { argument: Some(1) }).is_none());
    assert!(only(NodeData::ReturnStatement { argument: Some(0) }).is_some());
    assert!(only(NodeData::ParenthesizedExpression { expression: Some(0) }).is_none());
    assert!(only(NodeData::VariableDeclarator { name: None, initializer: Some(0) }).is_none());
    assert!(only(NodeData::MethodClassMember(method_node(STRING, 1))).is_none());
    let mut function = function_node(STRING);
    function.body = Some(FunctionBody::Expression(0));
    assert!(only(NodeData::Function(function)).is_none());
}

#[test]
fn types_of_trees_are_checked() {
    let mut builder = Builder::new();
    builder.function(0, STRING, &[LOADING]);
    let tree = builder.finish();
    assert!(tree.is_typed_within(FUNCTION + 1));
    assert!(!tree.is_typed_within(FUNCTION));
    assert!(tree.is_expression_node(4));
    assert!(!tree.is_expression_node(0));
    assert!(!tree.is_expression_node(99));
    assert_eq!(tree.type_of_expression(4), LOADING);
    assert!(matches!(tree.data(2), NodeData::FunctionBody { .. }));
}

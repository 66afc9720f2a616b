//! Comparing types.
use misleading_return_type::classify::{
    extract_return_type, includes_undefined, is_any_contaminated, is_escape_hatch,
    is_intersection_with_type_param, is_literal_of_primitive, is_single_literal_primitive_return,
    is_union_with_unknown, returns_boolean, unwrap_promise_inner,
};
use misleading_return_type::matching::{
    generic_constraint, is_base_type_of_literal, literals_equal, resolve_generic_chain,
    types_match, MAX_GENERIC_STEPS,
};
use misleading_return_type::property::is_only_property_literal_widening;
use misleading_return_type::traversal::MAX_TYPE_TRAVERSAL_ITERATIONS;
use misleading_return_type::types::{
    ids_are_in_range, FunctionParameter, Literal, ReturnType, TypeData, TypeGraph, TypeId,
    TypeMember, TypeMemberKind, TypeNode,
};
use misleading_return_type::union::{
    collapse_union_absorbed_by_primitive, covers_any, is_covered_by, is_union_wider,
    is_union_wider_than_returns, is_wider_than,
};
use misleading_return_type::widening::{
    find_index_value_type, find_member, has_name, is_nonunion_wider, property_name_of,
    push_object_literal_pairs, push_object_pairs,
};

/// A graph with one scope, in which every reference stands for the type of the same number.
fn graph(types: Vec<TypeData>) -> TypeGraph {
    let scope = (0..types.len()).map(Some).collect();
    let nodes = types.into_iter().map(|data| TypeNode { scope: 0, data }).collect();
    TypeGraph::new(nodes, vec![scope]).unwrap()
}

fn string(text: &str) -> TypeData {
    TypeData::Literal(Literal::String(text.to_string()))
}

fn number(text: &str) -> TypeData {
    TypeData::Literal(Literal::Number(text.to_string()))
}

fn boolean(value: bool) -> TypeData {
    TypeData::Literal(Literal::Boolean(value))
}

fn union(variants: &[TypeId]) -> TypeData {
    TypeData::Union { variants: variants.to_vec() }
}

fn generic(name: &str, constraint: Option<usize>) -> TypeData {
    TypeData::Generic { name: name.to_string(), constraint }
}

fn instance(ty: usize, type_parameters: &[usize]) -> TypeData {
    TypeData::InstanceOf { ty, type_parameters: type_parameters.to_vec() }
}

fn named(name: &str, ty: usize) -> TypeMember {
    TypeMember { kind: TypeMemberKind::Named(name.to_string()), ty }
}

fn optional(name: &str, ty: usize) -> TypeMember {
    TypeMember { kind: TypeMemberKind::NamedOptional(name.to_string()), ty }
}

fn index(ty: usize) -> TypeMember {
    TypeMember { kind: TypeMemberKind::IndexSignature(0), ty }
}

fn object(members: Vec<TypeMember>) -> TypeData {
    TypeData::Object { members }
}

fn object_literal(members: Vec<TypeMember>) -> TypeData {
    TypeData::Literal(Literal::Object(members))
}

fn tuple(elements: &[usize]) -> TypeData {
    TypeData::Tuple { elements: elements.to_vec() }
}

fn function(type_parameters: &[usize], parameters: &[usize], return_type: ReturnType) -> TypeData {
    let parameter = |ty: &usize| FunctionParameter { ty: *ty, is_optional: false, is_rest: false };
    TypeData::Function {
        type_parameters: type_parameters.to_vec(),
        parameters: parameters.iter().map(parameter).collect(),
        return_type,
    }
}

#[test]
fn graphs_with_broken_links_are_refused() {
    let node = |scope, data| TypeNode { scope, data };
    assert!(TypeGraph::new(vec![], vec![]).is_some());
    assert!(TypeGraph::new(vec![node(0, TypeData::String)], vec![vec![None]]).is_some());
    assert!(TypeGraph::new(vec![node(1, TypeData::String)], vec![vec![]]).is_none());
    assert!(TypeGraph::new(vec![node(0, TypeData::String)], vec![vec![Some(1)]]).is_none());
    assert!(TypeGraph::new(vec![node(0, union(&[1]))], vec![vec![]]).is_none());
    assert!(TypeGraph::new(vec![node(0, union(&[1])), node(0, TypeData::Null)], vec![vec![]])
        .is_some());
    // A union is not a variant of a union.
    assert!(TypeGraph::new(vec![node(0, union(&[0]))], vec![vec![]]).is_none());
    assert!(TypeGraph::new(vec![node(0, union(&[1])), node(0, union(&[]))], vec![vec![]])
        .is_none());
    assert!(ids_are_in_range(&vec![0, 1], 2));
    assert!(!ids_are_in_range(&vec![0, 2], 2));
}

#[test]
fn references_are_read_in_the_scope_of_a_type() {
    let nodes = vec![
        TypeNode { scope: 0, data: TypeData::String },
        TypeNode { scope: 1, data: TypeData::Number },
    ];
    let g = TypeGraph::new(nodes, vec![vec![Some(0), None], vec![Some(1)]]).unwrap();
    assert_eq!(g.resolve(0, 0), Some(0));
    assert_eq!(g.resolve(1, 0), Some(1));
    assert_eq!(g.resolve(0, 1), None);
    assert_eq!(g.resolve(0, 7), None);
    assert!(matches!(g.data(1), TypeData::Number));
    assert!(g.is_well_formed());
    let broken = TypeGraph { types: g.types, scopes: vec![vec![Some(2)], vec![]] };
    assert!(!broken.is_well_formed());
}

#[test]
fn union_variants_are_listed() {
    let g = graph(vec![TypeData::String, TypeData::Null, union(&[1, 0])]);
    assert_eq!(g.flattened_union_variants(2), vec![1, 0]);
    assert!(g.flattened_union_variants(0).is_empty());
    assert!(g.is_union(2));
    assert!(!g.is_union(0));
}

#[test]
fn simple_types_match_themselves_only() {
    let g = graph(vec![
        TypeData::String,
        TypeData::Number,
        TypeData::Boolean,
        TypeData::BigInt,
        TypeData::Null,
        TypeData::Undefined,
        TypeData::VoidKeyword,
        TypeData::NeverKeyword,
    ]);
    for a in 0..8 {
        for b in 0..8 {
            assert_eq!(types_match(&g, a, b), a == b);
        }
    }
}

#[test]
fn known_types_match_themselves() {
    let types = || {
        vec![
            TypeData::AnyKeyword,
            TypeData::UnknownKeyword,
            TypeData::ThisKeyword,
            union(&[0]),
            object(vec![named("a", 0)]),
            object_literal(vec![named("a", 0)]),
            tuple(&[0]),
            tuple(&[]),
            instance(0, &[0]),
            TypeData::Intersection { types: vec![0] },
            generic("T", None),
            function(&[], &[0], ReturnType::Type(0)),
            TypeData::Other,
        ]
    };
    let count = types().len();
    // Every type occurs twice in the table.
    let g = graph(types().into_iter().chain(types()).collect());
    for ty in 0..count {
        assert!(types_match(&g, ty, ty));
        for other in 0..count {
            // Nothing tells types of no other kind apart.
            let alike = ty == other && ty < count - 1;
            assert_eq!(types_match(&g, ty, count + other), alike);
        }
    }
}

#[test]
fn types_that_could_not_be_inferred_match_nothing() {
    let g = graph(vec![
        TypeData::Unknown,
        TypeData::Unknown,
        TypeData::String,
        string("a"),
        tuple(&[0, 2]),
        tuple(&[0, 3]),
        instance(0, &[]),
        instance(0, &[]),
        union(&[0, 2]),
    ]);
    assert!(!types_match(&g, 0, 0));
    assert!(!types_match(&g, 0, 1));
    assert!(!types_match(&g, 6, 6));
    assert!(!types_match(&g, 6, 7));
    assert!(!types_match(&g, 4, 5));
    assert!(!is_nonunion_wider(&g, 4, 5));
    assert!(!is_only_property_literal_widening(&g, 4, &vec![5]));
    for ty in 0..9 {
        assert!(!is_wider_than(&g, ty, ty));
    }
    // A compound type is still one type.
    assert!(types_match(&g, 4, 4));
    assert!(types_match(&g, 8, 8));
}

#[test]
fn functions_match_by_their_signatures() {
    let with = |is_optional, is_rest| TypeData::Function {
        type_parameters: vec![],
        parameters: vec![FunctionParameter { ty: 0, is_optional, is_rest }],
        return_type: ReturnType::Type(1),
    };
    let predicate = |parameter, ty| ReturnType::Predicate { parameter, ty };
    let asserts = |parameter, ty| ReturnType::Asserts { parameter, ty };
    let g = graph(vec![
        TypeData::String,
        TypeData::Number,
        TypeData::String,
        generic("T", None),
        function(&[], &[0], ReturnType::Type(1)),
        function(&[], &[2], ReturnType::Type(1)),
        function(&[], &[1], ReturnType::Type(1)),
        function(&[], &[0], ReturnType::Type(0)),
        function(&[], &[0, 0], ReturnType::Type(1)),
        function(&[0], &[], ReturnType::Type(1)),
        with(true, false),
        with(false, true),
        with(false, false),
        function(&[3], &[3], ReturnType::Type(3)),
        function(&[3], &[3], ReturnType::Type(3)),
        function(&[], &[0], predicate(Some(0), 1)),
        function(&[], &[2], predicate(Some(0), 1)),
        function(&[], &[0], predicate(None, 1)),
        function(&[], &[0], asserts(Some(0), Some(1))),
        function(&[], &[2], asserts(Some(0), Some(1))),
        function(&[], &[0], asserts(Some(0), None)),
        function(&[], &[2], asserts(Some(0), None)),
        function(&[], &[0], ReturnType::Type(90)),
        function(&[], &[0], ReturnType::Type(90)),
    ]);
    let same = [(4, 5), (4, 12), (5, 12), (13, 14), (15, 16), (18, 19), (20, 21)];
    for a in 4..24 {
        for b in 4..24 {
            let expected = a == b || same.contains(&(a, b)) || same.contains(&(b, a));
            assert_eq!(types_match(&g, a, b), expected, "{} {}", a, b);
        }
    }
}

#[test]
fn object_literals_match_by_the_types_of_their_members() {
    let nodes = vec![
        TypeNode { scope: 0, data: TypeData::String },
        TypeNode { scope: 0, data: TypeData::String },
        TypeNode { scope: 0, data: TypeData::Number },
        TypeNode { scope: 0, data: object_literal(vec![named("p", 0)]) },
        TypeNode { scope: 0, data: object_literal(vec![named("p", 1)]) },
        TypeNode { scope: 1, data: object_literal(vec![named("p", 0)]) },
        TypeNode { scope: 0, data: object_literal(vec![optional("p", 0)]) },
        TypeNode { scope: 0, data: object_literal(vec![named("p", 0), named("q", 2)]) },
        TypeNode { scope: 0, data: object_literal(vec![named("q", 2), named("p", 1)]) },
        TypeNode { scope: 0, data: object_literal(vec![]) },
        TypeNode { scope: 0, data: object(vec![named("p", 0)]) },
    ];
    let g = TypeGraph::new(nodes, vec![vec![Some(0), Some(1), Some(2)], vec![Some(2)]]).unwrap();
    assert!(types_match(&g, 3, 4));
    // The same reference stands for another type in another scope.
    assert!(!types_match(&g, 3, 5));
    assert!(!types_match(&g, 3, 6));
    assert!(!types_match(&g, 3, 7));
    assert!(types_match(&g, 7, 8));
    assert!(!types_match(&g, 3, 9));
    assert!(types_match(&g, 9, 9));
    // The type of a literal is not the type of an object.
    assert!(!types_match(&g, 3, 10));
}

#[test]
fn objects_match_by_kind_name_and_type() {
    let call = |ty| TypeMember { kind: TypeMemberKind::CallSignature, ty };
    let keyed = |key, ty| TypeMember { kind: TypeMemberKind::IndexSignature(key), ty };
    let g = graph(vec![
        TypeData::String,
        TypeData::String,
        TypeData::Number,
        object(vec![named("p", 0)]),
        object(vec![named("p", 1)]),
        object(vec![named("p", 2)]),
        object(vec![named("q", 1)]),
        object(vec![optional("p", 1)]),
        object(vec![named("p", 1), named("q", 2)]),
        object(vec![named("q", 2), named("p", 0)]),
        object(vec![]),
        object(vec![]),
        object(vec![call(0), named("p", 2), call(2)]),
        object(vec![named("p", 2), call(1), call(2)]),
        object(vec![named("p", 2), call(2), call(1)]),
        object(vec![keyed(0, 2)]),
        object(vec![keyed(1, 2)]),
        object(vec![keyed(2, 2)]),
        object(vec![named("p", 9)]),
        object(vec![named("p", 8)]),
        object(vec![named("p", 90)]),
        object(vec![named("p", 90)]),
    ]);
    assert!(types_match(&g, 3, 4));
    assert!(!types_match(&g, 3, 5));
    assert!(!types_match(&g, 3, 6));
    assert!(!types_match(&g, 3, 7));
    assert!(!types_match(&g, 3, 8));
    assert!(!types_match(&g, 8, 3));
    // The order of members makes no difference.
    assert!(types_match(&g, 8, 9));
    assert!(types_match(&g, 10, 11));
    assert!(!types_match(&g, 10, 3));
    // The order of overloads does.
    assert!(types_match(&g, 12, 13));
    assert!(!types_match(&g, 12, 14));
    // The keys of index signatures count.
    assert!(types_match(&g, 15, 16));
    assert!(!types_match(&g, 15, 17));
    assert!(types_match(&g, 18, 19));
    // A type that is not known matches nothing but itself.
    assert!(!types_match(&g, 20, 21));
    assert!(types_match(&g, 20, 20));
}

#[test]
fn lists_of_types_match_in_their_order() {
    let intersection = |types: &[usize]| TypeData::Intersection { types: types.to_vec() };
    let g = graph(vec![
        TypeData::String,
        TypeData::Number,
        TypeData::String,
        TypeData::Other,
        tuple(&[0, 1]),
        tuple(&[2, 1]),
        tuple(&[1, 0]),
        tuple(&[0]),
        instance(3, &[0, 1]),
        instance(3, &[2, 1]),
        instance(3, &[1, 0]),
        instance(0, &[0, 1]),
        intersection(&[0, 3]),
        intersection(&[2, 3]),
        intersection(&[3, 0]),
    ]);
    assert!(types_match(&g, 4, 5));
    assert!(!types_match(&g, 4, 6));
    assert!(!types_match(&g, 4, 7));
    assert!(types_match(&g, 8, 9));
    assert!(!types_match(&g, 8, 10));
    assert!(!types_match(&g, 8, 11));
    assert!(types_match(&g, 12, 13));
    assert!(!types_match(&g, 12, 14));
    assert!(!types_match(&g, 4, 12));
}

#[test]
fn unions_match_variant_by_variant() {
    let g = graph(vec![
        string("a"),
        string("b"),
        TypeData::Null,
        string("a"),
        union(&[0, 1, 2]),
        union(&[2, 1, 3]),
        union(&[0, 1]),
        union(&[0, 0, 1]),
        tuple(&[0]),
        tuple(&[1]),
        tuple(&[3]),
        union(&[8, 2, 9]),
        union(&[2, 10, 9]),
        union(&[9, 8, 2]),
    ]);
    assert!(types_match(&g, 4, 5));
    assert!(!types_match(&g, 4, 6));
    assert!(!types_match(&g, 6, 4));
    assert!(!types_match(&g, 6, 7));
    assert!(!types_match(&g, 7, 6));
    assert!(!types_match(&g, 6, 0));
    // Variants that look alike have to stand in the same order.
    assert!(types_match(&g, 11, 12));
    assert!(!types_match(&g, 11, 13));
}

#[test]
fn matching_stops_at_the_limit() {
    let nested = |depth: usize| {
        let mut types = vec![TypeData::String, TypeData::String];
        for level in 0..depth {
            types.push(tuple(&[level * 2]));
            types.push(tuple(&[level * 2 + 1]));
        }
        (graph(types), depth * 2, depth * 2 + 1)
    };
    let (g, a, b) = nested(MAX_TYPE_TRAVERSAL_ITERATIONS - 1);
    assert!(types_match(&g, a, b));
    let (g, a, b) = nested(MAX_TYPE_TRAVERSAL_ITERATIONS);
    assert!(!types_match(&g, a, b));
    assert!(types_match(&g, a, a));

    // Types that refer to themselves are not compared for ever.
    let g = graph(vec![object(vec![named("next", 0)]), object(vec![named("next", 1)])]);
    assert!(!types_match(&g, 0, 1));
    assert!(types_match(&g, 0, 0));
}

#[test]
fn literals_match_when_written_alike() {
    let text = |s: &str| s.to_string();
    assert!(literals_equal(&Literal::String(text("a")), &Literal::String(text("a"))));
    assert!(!literals_equal(&Literal::String(text("a")), &Literal::String(text("b"))));
    assert!(!literals_equal(&Literal::String(text("1")), &Literal::Number(text("1"))));
    assert!(!literals_equal(&Literal::String(text("a")), &Literal::Template(text("a"))));
    assert!(literals_equal(&Literal::Template(text("a")), &Literal::Template(text("a"))));
    assert!(literals_equal(&Literal::BigInt(text("1n")), &Literal::BigInt(text("1n"))));
    assert!(!literals_equal(&Literal::Boolean(true), &Literal::Boolean(false)));
    let regexp = |flags: &str| Literal::RegExp { pattern: text("x"), flags: text(flags) };
    assert!(literals_equal(&regexp("g"), &regexp("g")));
    assert!(!literals_equal(&regexp("g"), &regexp("i")));
}

#[test]
fn members_of_different_kinds_do_not_match() {
    let kinds = || {
        vec![
            TypeMemberKind::CallSignature,
            TypeMemberKind::Constructor,
            TypeMemberKind::Getter("a".to_string()),
            TypeMemberKind::IndexSignature(0),
            TypeMemberKind::Named("a".to_string()),
            TypeMemberKind::NamedOptional("a".to_string()),
            TypeMemberKind::NamedStatic("a".to_string()),
        ]
    };
    let member = |kind| vec![TypeMember { kind, ty: 0 }];
    let count = kinds().len();
    let types = kinds().into_iter().map(|kind| object(member(kind)));
    let literals = kinds().into_iter().map(|kind| object_literal(member(kind)));
    let copies = kinds().into_iter().map(|kind| object(member(kind)));
    let g = graph(
        [TypeData::String].into_iter().chain(types).chain(literals).chain(copies).collect(),
    );
    for a in 0..count {
        for b in 0..count {
            assert_eq!(types_match(&g, 1 + a, 1 + 2 * count + b), a == b);
            assert_eq!(types_match(&g, 1 + count + a, 1 + count + b), a == b);
            assert!(!types_match(&g, 1 + a, 1 + count + b));
        }
    }
    assert!(!literals_equal(&Literal::Object(vec![]), &Literal::Object(vec![])));
}

#[test]
fn type_parameters_match_by_name_through_bare_instances() {
    let g = graph(vec![
        generic("T", None),
        generic("T", None),
        generic("U", None),
        instance(0, &[]),
        instance(1, &[]),
        instance(2, &[]),
        instance(0, &[2]),
    ]);
    assert!(types_match(&g, 0, 1));
    assert!(!types_match(&g, 0, 2));
    assert!(types_match(&g, 0, 4));
    assert!(types_match(&g, 3, 1));
    assert!(types_match(&g, 3, 4));
    assert!(!types_match(&g, 3, 5));
    assert!(!types_match(&g, 2, 4));
    assert!(!types_match(&g, 0, 6));
    assert!(!types_match(&g, 3, 6));
}

#[test]
fn matching_does_not_depend_on_the_order() {
    let g = graph(vec![
        generic("T", None),
        instance(0, &[]),
        instance(1, &[]),
        string("a"),
        TypeData::String,
        object(vec![named("p", 3), named("q", 4)]),
        object(vec![named("q", 4), named("p", 3)]),
        union(&[3, 4]),
        union(&[4, 3]),
    ]);
    for a in 0..9 {
        for b in 0..9 {
            assert_eq!(types_match(&g, a, b), types_match(&g, b, a));
        }
    }
}

#[test]
fn bare_instances_are_looked_through() {
    let g = graph(vec![TypeData::String, instance(0, &[]), instance(1, &[]), instance(1, &[])]);
    assert!(types_match(&g, 2, 3));
    assert!(!types_match(&g, 1, 2));
    assert!(!types_match(&g, 0, 1));
}

#[test]
fn endless_chains_of_instances_do_not_match() {
    let g = graph(vec![
        instance(1, &[]),
        instance(0, &[]),
        TypeData::String,
        instance(0, &[]),
        instance(1, &[]),
    ]);
    for a in 0..5 {
        for b in 0..5 {
            assert_eq!(types_match(&g, a, b), a == 2 && b == 2);
        }
    }
}

#[test]
fn long_chains_of_instances_are_looked_through() {
    let mut types = vec![TypeData::String, TypeData::String];
    for level in 0..2 * MAX_TYPE_TRAVERSAL_ITERATIONS {
        types.push(instance(level * 2, &[]));
        types.push(instance(level * 2 + 1, &[]));
    }
    let last = types.len() - 1;
    let g = graph(types);
    assert!(types_match(&g, last, last - 1));
    assert!(!types_match(&g, last, last - 2));
}

#[test]
fn unresolved_instances_do_not_match() {
    let node = |data| TypeNode { scope: 0, data };
    let types = vec![node(instance(0, &[])), node(generic("T", None)), node(instance(0, &[]))];
    let g = TypeGraph::new(types, vec![vec![]]).unwrap();
    assert!(!types_match(&g, 0, 2));
    assert!(!types_match(&g, 0, 0));
    assert!(!types_match(&g, 0, 1));
}

#[test]
fn literals_have_a_base_type() {
    let g = graph(vec![
        TypeData::String,
        TypeData::Number,
        TypeData::Boolean,
        TypeData::BigInt,
        string("a"),
        number("1"),
        boolean(true),
        TypeData::Literal(Literal::BigInt("1n".to_string())),
        TypeData::Literal(Literal::Template("x".to_string())),
        TypeData::Literal(Literal::RegExp { pattern: "x".to_string(), flags: String::new() }),
    ]);
    for base in 0..4 {
        for literal in 0..10 {
            let expected = base + 4 == literal || (base == 0 && literal == 8);
            assert_eq!(is_base_type_of_literal(&g, base, literal), expected);
        }
    }
}

#[test]
fn constraints_are_followed_to_a_limit() {
    let steps = usize::from(MAX_GENERIC_STEPS);
    assert_eq!(steps, 6);
    // Type `i` is constrained by type `i + 1`, and the last type is no type parameter.
    let mut types: Vec<TypeData> = (0..7).map(|i| generic("T", Some(i + 1))).collect();
    types.push(TypeData::String);
    let g = graph(types);
    assert_eq!(resolve_generic_chain(&g, 1), 7);
    assert_eq!(resolve_generic_chain(&g, 0), 6);
    assert_eq!(resolve_generic_chain(&g, 7), 7);
    assert_eq!(generic_constraint(&g, 6), Some(7));
    assert_eq!(generic_constraint(&g, 7), None);
}

#[test]
fn unknown_constraints_are_not_followed() {
    let node = |data| TypeNode { scope: 0, data };
    let types = vec![node(generic("T", None)), node(generic("U", Some(5)))];
    let g = TypeGraph::new(types, vec![vec![]]).unwrap();
    assert_eq!(resolve_generic_chain(&g, 0), 0);
    assert_eq!(resolve_generic_chain(&g, 1), 1);
}

#[test]
fn primitives_are_wider_than_their_literals() {
    let g = graph(vec![
        TypeData::String,
        string("a"),
        number("1"),
        generic("T", Some(1)),
        generic("U", None),
    ]);
    assert!(is_nonunion_wider(&g, 0, 1));
    assert!(!is_nonunion_wider(&g, 0, 2));
    assert!(!is_nonunion_wider(&g, 1, 0));
    assert!(!is_nonunion_wider(&g, 0, 0));
    assert!(is_nonunion_wider(&g, 0, 3));
    assert!(!is_nonunion_wider(&g, 0, 4));
}

#[test]
fn instances_are_compared_by_their_arguments() {
    let g = graph(vec![
        TypeData::String,
        string("a"),
        TypeData::Other,
        TypeData::Other,
        instance(2, &[0]),
        instance(2, &[1]),
        instance(3, &[1]),
        instance(2, &[1, 1]),
        instance(2, &[]),
    ]);
    assert!(is_nonunion_wider(&g, 4, 5));
    assert!(!is_nonunion_wider(&g, 4, 4));
    assert!(!is_nonunion_wider(&g, 4, 6));
    assert!(!is_nonunion_wider(&g, 4, 7));
    assert!(!is_nonunion_wider(&g, 5, 4));
    assert!(!is_nonunion_wider(&g, 8, 8));
}

#[test]
fn tuples_are_compared_element_by_element() {
    let g = graph(vec![
        TypeData::String,
        string("a"),
        TypeData::Number,
        tuple(&[0, 2]),
        tuple(&[1, 2]),
        tuple(&[1]),
        tuple(&[]),
        tuple(&[1, 0]),
    ]);
    assert!(is_nonunion_wider(&g, 3, 4));
    assert!(!is_nonunion_wider(&g, 3, 3));
    assert!(!is_nonunion_wider(&g, 3, 5));
    assert!(!is_nonunion_wider(&g, 6, 6));
    assert!(!is_nonunion_wider(&g, 3, 7));
}

#[test]
fn objects_are_compared_by_property_names() {
    let g = graph(vec![
        TypeData::String,
        string("x"),
        TypeData::Number,
        object(vec![named("a", 0), optional("b", 2)]),
        object(vec![named("b", 2), named("c", 2), named("a", 1)]),
        object(vec![named("a", 1)]),
        object(vec![]),
        object_literal(vec![named("a", 1), named("b", 2)]),
        object_literal(vec![]),
    ]);
    assert!(is_nonunion_wider(&g, 3, 4));
    assert!(!is_nonunion_wider(&g, 3, 5));
    assert!(!is_nonunion_wider(&g, 3, 6));
    assert!(!is_nonunion_wider(&g, 6, 5));
    assert!(is_nonunion_wider(&g, 3, 7));
    assert!(!is_nonunion_wider(&g, 3, 8));
    assert!(!is_nonunion_wider(&g, 3, 1));
}

#[test]
fn index_signatures_are_compared_with_every_member() {
    let g = graph(vec![
        TypeData::String,
        string("x"),
        TypeData::Number,
        object(vec![index(0)]),
        object(vec![named("a", 1), named("b", 0)]),
        object(vec![named("a", 1), named("b", 2)]),
    ]);
    assert!(is_nonunion_wider(&g, 3, 4));
    assert!(!is_nonunion_wider(&g, 3, 5));
}

#[test]
fn pairs_are_pushed_in_order_until_one_is_missing() {
    let g = graph(vec![TypeData::String, TypeData::Number, string("x"), generic("T", Some(2))]);
    let ann = vec![named("a", 0), named("b", 1)];
    let mut stack = vec![(1, 1)];
    let complete =
        push_object_pairs(&g, 0, &ann, 0, &vec![named("b", 1), named("a", 3)], &mut stack);
    assert!(complete);
    assert_eq!(stack, vec![(1, 1), (0, 2), (1, 1)]);

    let mut stack = vec![];
    assert!(!push_object_pairs(&g, 0, &ann, 0, &vec![named("a", 2)], &mut stack));
    assert_eq!(stack, vec![(0, 2)]);

    let mut stack = vec![];
    assert!(push_object_pairs(&g, 0, &vec![index(1)], 0, &vec![named("a", 2)], &mut stack));
    assert_eq!(stack, vec![(1, 2)]);

    let mut stack = vec![];
    assert!(push_object_literal_pairs(&g, 0, &vec![index(1)], &vec![named("a", 2)], &mut stack));
    assert!(stack.is_empty());
    assert!(!push_object_literal_pairs(&g, 0, &vec![], &vec![named("a", 2)], &mut stack));
    assert!(!push_object_pairs(&g, 0, &ann, 0, &vec![], &mut stack));
    assert!(stack.is_empty());
}

#[test]
fn literal_members_are_read_in_the_scope_of_the_annotation() {
    let nodes = vec![
        TypeNode { scope: 0, data: TypeData::String },
        TypeNode { scope: 0, data: object(vec![named("a", 0)]) },
        TypeNode { scope: 1, data: object_literal(vec![named("a", 1)]) },
        TypeNode { scope: 1, data: string("x") },
    ];
    let g = TypeGraph::new(nodes, vec![vec![Some(0), Some(3)], vec![Some(0), Some(0)]]).unwrap();
    assert!(is_nonunion_wider(&g, 1, 2));
}

#[test]
fn members_are_found_by_name() {
    let kind = |kind: &TypeMemberKind, name: &str| has_name(kind, &name.to_string());
    assert!(!kind(&TypeMemberKind::CallSignature, "a"));
    assert!(!kind(&TypeMemberKind::IndexSignature(0), "a"));
    assert!(kind(&TypeMemberKind::Constructor, "constructor"));
    assert!(!kind(&TypeMemberKind::Constructor, "a"));
    assert!(kind(&TypeMemberKind::Getter("a".to_string()), "a"));
    assert!(kind(&TypeMemberKind::NamedStatic("a".to_string()), "a"));
    assert!(!kind(&TypeMemberKind::Named("a".to_string()), "b"));

    let members = vec![index(9), named("a", 1), optional("a", 2)];
    assert_eq!(find_member(&members, &"a".to_string()).map(|member| member.ty), Some(1));
    assert!(find_member(&members, &"b".to_string()).is_none());
    assert_eq!(property_name_of(&members[2].kind), Some(&"a".to_string()));
    assert_eq!(property_name_of(&members[0].kind), None);
    assert_eq!(property_name_of(&TypeMemberKind::NamedStatic("a".to_string())), None);
}

#[test]
fn the_first_index_signature_counts() {
    let g = graph(vec![TypeData::String, TypeData::Number]);
    assert_eq!(find_index_value_type(&g, 0, &vec![named("a", 0), index(1), index(0)]), Some(1));
    assert_eq!(find_index_value_type(&g, 0, &vec![named("a", 0)]), None);
    assert_eq!(find_index_value_type(&g, 0, &vec![index(7), index(0)]), None);
}

/// An object type nested `depth` times around a `string`, and one around a literal.
fn nested_objects(depth: usize) -> (TypeGraph, TypeId, TypeId) {
    let mut types = vec![TypeData::String, string("x")];
    for level in 0..depth {
        types.push(object(vec![named("a", level * 2)]));
        types.push(object(vec![named("a", level * 2 + 1)]));
    }
    (graph(types), depth * 2, depth * 2 + 1)
}

#[test]
fn comparisons_stop_at_the_limit() {
    assert_eq!(MAX_TYPE_TRAVERSAL_ITERATIONS, 50);
    let (g, annotated, inferred) = nested_objects(49);
    assert!(is_nonunion_wider(&g, annotated, inferred));
    let (g, annotated, inferred) = nested_objects(50);
    assert!(!is_nonunion_wider(&g, annotated, inferred));

    // The innermost literal needs no iteration of its own here.
    let (g, annotated, inferred) = nested_objects(50);
    assert!(is_only_property_literal_widening(&g, annotated, &vec![inferred]));
    let (g, annotated, inferred) = nested_objects(51);
    assert!(!is_only_property_literal_widening(&g, annotated, &vec![inferred]));
}

#[test]
fn types_that_refer_to_themselves_are_not_wider() {
    let g = graph(vec![
        TypeData::String,
        string("x"),
        object(vec![named("value", 0), named("next", 2)]),
        object(vec![named("value", 1), named("next", 3)]),
        object(vec![named("next", 5), named("value", 0)]),
        object(vec![named("next", 4), named("value", 0)]),
    ]);
    assert!(!is_nonunion_wider(&g, 2, 3));
    assert!(!is_nonunion_wider(&g, 4, 3));
    assert!(!is_only_property_literal_widening(&g, 2, &vec![3]));
}

#[test]
fn property_literals_may_be_widened() {
    let g = graph(vec![
        TypeData::String,
        string("x"),
        TypeData::Number,
        object(vec![named("a", 0), named("b", 2)]),
        object(vec![named("a", 1), named("b", 2)]),
        object_literal(vec![named("a", 1), named("b", 2)]),
        object(vec![named("a", 0)]),
        object(vec![named("o", 3)]),
        object(vec![named("o", 4)]),
        tuple(&[0, 3]),
        tuple(&[0, 4]),
        tuple(&[0]),
    ]);
    assert!(is_only_property_literal_widening(&g, 3, &vec![4]));
    assert!(is_only_property_literal_widening(&g, 3, &vec![4, 5]));
    assert!(!is_only_property_literal_widening(&g, 3, &vec![4, 3]));
    assert!(!is_only_property_literal_widening(&g, 3, &vec![6]));
    assert!(!is_only_property_literal_widening(&g, 0, &vec![1]));
    assert!(is_only_property_literal_widening(&g, 7, &vec![8]));
    assert!(is_only_property_literal_widening(&g, 9, &vec![10]));
    assert!(!is_only_property_literal_widening(&g, 9, &vec![11]));
    assert!(!is_only_property_literal_widening(&g, 9, &vec![3]));
    assert!(is_only_property_literal_widening(&g, 0, &vec![]));
}

#[test]
fn index_signatures_may_widen_properties() {
    let g = graph(vec![
        TypeData::String,
        string("x"),
        TypeData::Number,
        object(vec![index(0)]),
        object(vec![named("a", 1), named("b", 0)]),
        object(vec![named("a", 0)]),
        object(vec![named("a", 1), named("b", 2)]),
    ]);
    assert!(is_only_property_literal_widening(&g, 3, &vec![4]));
    assert!(!is_only_property_literal_widening(&g, 3, &vec![5]));
    assert!(!is_only_property_literal_widening(&g, 3, &vec![6]));
}

#[test]
fn annotations_without_information_are_escape_hatches() {
    let g = graph(vec![
        TypeData::AnyKeyword,
        TypeData::VoidKeyword,
        TypeData::UnknownKeyword,
        TypeData::NeverKeyword,
        TypeData::Unknown,
        TypeData::ThisKeyword,
        TypeData::Undefined,
        TypeData::String,
    ]);
    for ty in 0..8 {
        assert_eq!(is_escape_hatch(&g, ty), ty < 6);
    }
}

#[test]
fn return_types_are_read_from_functions() {
    let g = graph(vec![
        TypeData::String,
        function(&[], &[], ReturnType::Type(0)),
        function(&[], &[0], ReturnType::Predicate { parameter: Some(0), ty: 0 }),
        function(&[], &[], ReturnType::Type(9)),
        function(&[], &[0], ReturnType::Asserts { parameter: Some(0), ty: None }),
    ]);
    assert_eq!(extract_return_type(&g, 1), Some(0));
    assert_eq!(extract_return_type(&g, 2), None);
    assert_eq!(extract_return_type(&g, 3), None);
    assert_eq!(extract_return_type(&g, 4), None);
    assert_eq!(extract_return_type(&g, 0), None);
}

#[test]
fn promises_are_unwrapped_unless_they_say_nothing() {
    let g = graph(vec![
        generic("Promise", None),
        TypeData::String,
        TypeData::AnyKeyword,
        instance(0, &[1]),
        instance(0, &[2]),
        instance(0, &[]),
    ]);
    assert_eq!(unwrap_promise_inner(&g, 3), 1);
    assert_eq!(unwrap_promise_inner(&g, 4), 4);
    assert_eq!(unwrap_promise_inner(&g, 5), 5);
    assert_eq!(unwrap_promise_inner(&g, 1), 1);
}

#[test]
fn unions_are_classified_by_their_variants() {
    let g = graph(vec![
        TypeData::String,
        TypeData::Undefined,
        TypeData::VoidKeyword,
        TypeData::AnyKeyword,
        TypeData::Unknown,
        TypeData::UnknownKeyword,
        union(&[0, 1]),
        union(&[0, 2]),
        union(&[0, 3]),
        union(&[0, 4]),
        union(&[0, 5]),
    ]);
    let undefined: Vec<TypeId> = (0..11).filter(|ty| includes_undefined(&g, *ty)).collect();
    assert_eq!(undefined, vec![1, 2, 6, 7]);
    let any: Vec<TypeId> = (0..11).filter(|ty| is_any_contaminated(&g, *ty)).collect();
    assert_eq!(any, vec![3, 8]);
    let unknown: Vec<TypeId> = (0..11).filter(|ty| is_union_with_unknown(&g, *ty)).collect();
    assert_eq!(unknown, vec![9, 10]);
}

#[test]
fn intersections_with_type_parameters_are_found() {
    let g = graph(vec![
        TypeData::String,
        generic("T", None),
        TypeData::Intersection { types: vec![0, 1] },
        TypeData::Intersection { types: vec![0, 9] },
    ]);
    assert!(is_intersection_with_type_param(&g, 2));
    assert!(!is_intersection_with_type_param(&g, 3));
    assert!(!is_intersection_with_type_param(&g, 1));
}

#[test]
fn single_primitive_literals_are_found() {
    let g = graph(vec![
        string("a"),
        TypeData::Literal(Literal::RegExp { pattern: "x".to_string(), flags: String::new() }),
        object_literal(vec![named("a", 0)]),
        union(&[0]),
        union(&[0, 0]),
        TypeData::String,
        TypeData::Literal(Literal::Template("x".to_string())),
    ]);
    let found: Vec<TypeId> = (0..7).filter(|ty| is_literal_of_primitive(&g, *ty)).collect();
    assert_eq!(found, vec![0, 3, 6]);
    assert!(is_single_literal_primitive_return(&g, &vec![3]));
    assert!(!is_single_literal_primitive_return(&g, &vec![0, 0]));
    assert!(!is_single_literal_primitive_return(&g, &vec![]));
}

#[test]
fn boolean_literals_are_found() {
    let g = graph(vec![boolean(true), boolean(false), TypeData::Boolean]);
    assert!(returns_boolean(&g, &vec![2, 0], true));
    assert!(!returns_boolean(&g, &vec![2, 0], false));
}

#[test]
fn unions_collapse_to_an_absorbing_primitive() {
    let g = graph(vec![
        TypeData::String,
        string("a"),
        string("b"),
        number("1"),
        TypeData::Number,
        union(&[1, 2, 0]),
        union(&[1, 2]),
        union(&[1, 3, 0]),
        union(&[0, 4]),
        union(&[0, 0]),
        generic("T", Some(1)),
        union(&[10, 0]),
        TypeData::Literal(Literal::Template("x".to_string())),
        union(&[0, 12]),
        union(&[0]),
    ]);
    assert_eq!(collapse_union_absorbed_by_primitive(&g, 5), Some(0));
    assert_eq!(collapse_union_absorbed_by_primitive(&g, 6), None);
    assert_eq!(collapse_union_absorbed_by_primitive(&g, 7), None);
    assert_eq!(collapse_union_absorbed_by_primitive(&g, 8), None);
    assert_eq!(collapse_union_absorbed_by_primitive(&g, 9), None);
    assert_eq!(collapse_union_absorbed_by_primitive(&g, 0), None);
    // A type parameter is no literal, whatever it is constrained to.
    assert_eq!(collapse_union_absorbed_by_primitive(&g, 11), None);
    assert_eq!(collapse_union_absorbed_by_primitive(&g, 13), Some(0));
    assert_eq!(collapse_union_absorbed_by_primitive(&g, 14), Some(0));
}

#[test]
fn annotations_are_wider_than_unions_of_literals() {
    let g = graph(vec![
        TypeData::Number,
        number("0"),
        number("1"),
        union(&[1, 2]),
        union(&[1, 0]),
        string("a"),
        union(&[1, 5]),
        union(&[0]),
    ]);
    assert!(is_wider_than(&g, 0, 3));
    assert!(!is_wider_than(&g, 0, 4));
    assert!(!is_wider_than(&g, 0, 6));
    assert!(!is_wider_than(&g, 0, 7));
    assert!(!is_wider_than(&g, 0, 0));
    assert!(is_wider_than(&g, 0, 1));
}

#[test]
fn unions_are_wider_when_a_variant_is_not_reached() {
    let g = graph(vec![
        string("a"),
        string("b"),
        union(&[0, 1]),
        TypeData::Null,
        union(&[0, 3]),
        TypeData::String,
        generic("T", Some(0)),
        union(&[5, 6]),
        union(&[0, 6]),
        union(&[5, 3]),
    ]);
    assert!(is_union_wider(&g, 2, 0));
    assert!(!is_union_wider(&g, 2, 2));
    assert!(!is_union_wider(&g, 2, 3));
    assert!(!is_union_wider(&g, 2, 4));
    assert!(is_wider_than(&g, 2, 0));
    // The type parameter is redundant next to its constraint.
    assert!(!is_union_wider(&g, 8, 0));
    // The type parameter is redundant next to `string`, but `string` is wider.
    assert!(!is_union_wider(&g, 7, 5));
    assert!(is_union_wider(&g, 7, 0));
    // `string | null` is wider than `"a" | null`, and than `null`.
    assert!(is_wider_than(&g, 9, 4));
    assert!(is_wider_than(&g, 9, 3));
    assert!(!is_wider_than(&g, 9, 9));
    assert!(!is_wider_than(&g, 4, 9));
}

#[test]
fn unions_are_compared_with_all_returned_types() {
    let g = graph(vec![
        string("a"),
        string("b"),
        string("c"),
        union(&[0, 1, 2]),
        TypeData::String,
        TypeData::Number,
        union(&[4, 5]),
        number("1"),
        union(&[4, 0]),
    ]);
    // `"c"` is never returned.
    assert!(is_union_wider_than_returns(&g, 3, &vec![0, 1]));
    assert!(!is_union_wider_than_returns(&g, 3, &vec![0, 1, 2]));
    // `string` is wider than `"a"`.
    assert!(is_union_wider_than_returns(&g, 6, &vec![0, 7]));
    assert!(!is_union_wider_than_returns(&g, 6, &vec![4, 5]));
    // `"a"` is matched directly.
    assert!(!is_union_wider_than_returns(&g, 8, &vec![0]));
    // A number is not covered.
    assert!(!is_union_wider_than_returns(&g, 3, &vec![7]));
    assert!(is_covered_by(&g, 4, 0));
    assert!(is_covered_by(&g, 0, 0));
    assert!(!is_covered_by(&g, 0, 4));
    assert!(covers_any(&g, 4, &vec![7, 0]));
    assert!(!covers_any(&g, 4, &vec![7]));
}

#[test]
fn wider_is_strict() {
    let g = graph(vec![
        TypeData::String,
        string("a"),
        TypeData::Null,
        generic("T", Some(1)),
        instance(3, &[]),
        tuple(&[0, 1]),
        tuple(&[1, 1]),
        object(vec![named("a", 0), named("b", 5)]),
        object(vec![named("b", 6), named("a", 0)]),
        object(vec![index(0), named("a", 1)]),
        union(&[0, 2]),
        union(&[7, 8]),
        TypeData::Other,
    ]);
    for ty in 0..13 {
        assert!(!is_wider_than(&g, ty, ty));
        assert!(!is_nonunion_wider(&g, ty, ty));
    }
    assert!(is_nonunion_wider(&g, 5, 6));
    assert!(is_nonunion_wider(&g, 7, 8));
    for a in 0..9 {
        for b in 0..9 {
            if is_nonunion_wider(&g, a, b) {
                assert!(!is_nonunion_wider(&g, b, a));
                assert!(!types_match(&g, a, b));
            }
        }
    }
}

#[test]
fn index_signatures_can_be_wider_both_ways() {
    let keyed = |key, ty| TypeMember { kind: TypeMemberKind::IndexSignature(key), ty };
    let g = graph(vec![
        TypeData::String,
        string("x"),
        TypeData::Number,
        object(vec![keyed(0, 0), named("p", 1)]),
        object(vec![keyed(2, 0), named("p", 1)]),
    ]);
    assert!(is_nonunion_wider(&g, 3, 4));
    assert!(is_nonunion_wider(&g, 4, 3));
}

//! When two types are the same type, and when one is the base of a literal.
use crate::traversal::{
    agrees, lemma_settled_exhausted, lemma_settled_step, pairs_in_range, settled, Comparison, Pair,
    Step, MAX_TYPE_TRAVERSAL_ITERATIONS,
};
use crate::types::{
    FunctionParameter, Literal, ReturnType, TypeData, TypeGraph, TypeId, TypeMember,
    TypeMemberKind, TypeRef,
};
use vstd::prelude::*;

verus! {

/// Two literals that are no objects are written alike.
pub open spec fn same_literal(a: Literal, b: Literal) -> bool {
    match (a, b) {
        (Literal::BigInt(x), Literal::BigInt(y)) => x@ == y@,
        (Literal::Boolean(x), Literal::Boolean(y)) => x == y,
        (Literal::Number(x), Literal::Number(y)) => x@ == y@,
        (
            Literal::RegExp { pattern: p, flags: f },
            Literal::RegExp { pattern: q, flags: g },
        ) => p@ == q@ && f@ == g@,
        (Literal::String(x), Literal::String(y)) => x@ == y@,
        (Literal::Template(x), Literal::Template(y)) => x@ == y@,
        _ => false,
    }
}

/// An instance without type arguments, such as a name that refers to a type.
pub open spec fn bare_instance(graph: &TypeGraph, ty: TypeId) -> bool {
    match graph.data_of(ty) {
        TypeData::InstanceOf { ty: _, type_parameters } => type_parameters@.len() == 0,
        _ => false,
    }
}

/// The type that a bare instance is an instance of.
pub open spec fn instance_base(graph: &TypeGraph, ty: TypeId) -> Option<TypeId> {
    match graph.data_of(ty) {
        TypeData::InstanceOf { ty: base, type_parameters } => if type_parameters@.len() == 0 {
            graph.resolved(ty, base)
        } else {
            None
        },
        _ => None,
    }
}

/// A bare instance of a type parameter with this name.
pub open spec fn instance_of_generic(graph: &TypeGraph, ty: TypeId, name: Seq<char>) -> bool {
    match instance_base(graph, ty) {
        Some(base) => match graph.data_of(base) {
            TypeData::Generic { name: found, constraint: _ } => found@ == name,
            _ => false,
        },
        None => false,
    }
}

/// Two types are the same without regard to parts: they are the same simple type,
/// or a type parameter and a bare instance of it.
pub open spec fn same_simple_type(graph: &TypeGraph, a: TypeId, b: TypeId) -> bool {
    match (graph.data_of(a), graph.data_of(b)) {
        (TypeData::AnyKeyword, TypeData::AnyKeyword) => true,
        (TypeData::NeverKeyword, TypeData::NeverKeyword) => true,
        (TypeData::ThisKeyword, TypeData::ThisKeyword) => true,
        (TypeData::UnknownKeyword, TypeData::UnknownKeyword) => true,
        (TypeData::VoidKeyword, TypeData::VoidKeyword) => true,
        (TypeData::BigInt, TypeData::BigInt) => true,
        (TypeData::Boolean, TypeData::Boolean) => true,
        (TypeData::Null, TypeData::Null) => true,
        (TypeData::Number, TypeData::Number) => true,
        (TypeData::String, TypeData::String) => true,
        (TypeData::Undefined, TypeData::Undefined) => true,
        (TypeData::Literal(x), TypeData::Literal(y)) => same_literal(x, y),
        (
            TypeData::Generic { name: x, constraint: _ },
            TypeData::Generic { name: y, constraint: _ },
        ) => x@ == y@,
        (TypeData::Generic { name, constraint: _ }, TypeData::InstanceOf { .. }) =>
            instance_of_generic(graph, b, name@),
        (TypeData::InstanceOf { .. }, TypeData::Generic { name, constraint: _ }) =>
            instance_of_generic(graph, a, name@),
        _ => false,
    }
}

/// What is seen of a type at first sight, without looking at its parts. Types
/// that match look alike.
pub enum Look {
    Unknown,
    AnyKeyword,
    NeverKeyword,
    ThisKeyword,
    UnknownKeyword,
    VoidKeyword,
    BigInt,
    Boolean,
    Null,
    Number,
    String,
    Undefined,
    Function,
    /// A type parameter, or an instance, which may stand for a type parameter.
    Reference,
    Intersection,
    BigIntLiteral(Seq<char>),
    BooleanLiteral(bool),
    NumberLiteral(Seq<char>),
    ObjectLiteral,
    RegExpLiteral(Seq<char>, Seq<char>),
    StringLiteral(Seq<char>),
    TemplateLiteral(Seq<char>),
    Object,
    Tuple,
    Union,
    Other,
}

/// How a literal looks.
pub open spec fn look_of_literal(literal: Literal) -> Look {
    match literal {
        Literal::BigInt(text) => Look::BigIntLiteral(text@),
        Literal::Boolean(value) => Look::BooleanLiteral(value),
        Literal::Number(text) => Look::NumberLiteral(text@),
        Literal::Object(_) => Look::ObjectLiteral,
        Literal::RegExp { pattern, flags } => Look::RegExpLiteral(pattern@, flags@),
        Literal::String(text) => Look::StringLiteral(text@),
        Literal::Template(text) => Look::TemplateLiteral(text@),
    }
}

/// How a type looks.
pub open spec fn look_of(data: TypeData) -> Look {
    match data {
        TypeData::Unknown => Look::Unknown,
        TypeData::AnyKeyword => Look::AnyKeyword,
        TypeData::NeverKeyword => Look::NeverKeyword,
        TypeData::ThisKeyword => Look::ThisKeyword,
        TypeData::UnknownKeyword => Look::UnknownKeyword,
        TypeData::VoidKeyword => Look::VoidKeyword,
        TypeData::BigInt => Look::BigInt,
        TypeData::Boolean => Look::Boolean,
        TypeData::Null => Look::Null,
        TypeData::Number => Look::Number,
        TypeData::String => Look::String,
        TypeData::Undefined => Look::Undefined,
        TypeData::Function { .. } => Look::Function,
        TypeData::Generic { .. } => Look::Reference,
        TypeData::InstanceOf { .. } => Look::Reference,
        TypeData::Intersection { .. } => Look::Intersection,
        TypeData::Literal(literal) => look_of_literal(literal),
        TypeData::Object { .. } => Look::Object,
        TypeData::Tuple { .. } => Look::Tuple,
        TypeData::Union { .. } => Look::Union,
        TypeData::Other => Look::Other,
    }
}

/// What a part of a type is found by in another type.
pub enum PartKey {
    /// Elements, type arguments, the types of an intersection, or the types that
    /// a function speaks of, taken together.
    List,
    CallSignature,
    Constructor,
    Getter(Seq<char>),
    IndexSignature,
    Named(Seq<char>),
    NamedOptional(Seq<char>),
    NamedStatic(Seq<char>),
    Variant(Look),
}

/// What a member is found by: its kind together with its name, if it has one.
pub open spec fn member_key(kind: TypeMemberKind) -> PartKey {
    match kind {
        TypeMemberKind::CallSignature => PartKey::CallSignature,
        TypeMemberKind::Constructor => PartKey::Constructor,
        TypeMemberKind::Getter(name) => PartKey::Getter(name@),
        TypeMemberKind::IndexSignature(_) => PartKey::IndexSignature,
        TypeMemberKind::Named(name) => PartKey::Named(name@),
        TypeMemberKind::NamedOptional(name) => PartKey::NamedOptional(name@),
        TypeMemberKind::NamedStatic(name) => PartKey::NamedStatic(name@),
    }
}

/// A part of a compound type, with the types that it is made of.
pub struct Part {
    pub key: PartKey,
    pub types: Seq<Option<TypeId>>,
}

/// The types that references stand for when they are read from `ty`.
pub open spec fn resolved_all(
    graph: &TypeGraph,
    ty: TypeId,
    refs: Seq<TypeRef>,
) -> Seq<Option<TypeId>> {
    Seq::new(refs.len(), |i: int| graph.resolved(ty, refs[i]))
}

/// The elements of a type, in order.
pub open spec fn list_part(graph: &TypeGraph, ty: TypeId, refs: Seq<TypeRef>) -> Part {
    Part { key: PartKey::List, types: resolved_all(graph, ty, refs) }
}

/// The types that a function says something of in what it returns.
pub open spec fn return_refs(return_type: ReturnType) -> Seq<TypeRef> {
    match return_type {
        ReturnType::Type(ty) => seq![ty],
        ReturnType::Predicate { parameter: _, ty } => seq![ty],
        ReturnType::Asserts { parameter: _, ty: Some(ty) } => seq![ty],
        ReturnType::Asserts { parameter: _, ty: None } => seq![],
    }
}

/// The types that a function speaks of: its type parameters, the types of its
/// parameters, and what it returns.
pub open spec fn function_refs(
    type_parameters: Seq<TypeRef>,
    parameters: Seq<FunctionParameter>,
    return_type: ReturnType,
) -> Seq<TypeRef> {
    type_parameters + Seq::new(parameters.len(), |i: int| parameters[i].ty) + return_refs(
        return_type,
    )
}

/// The references of a member: its type, and before it the type of the keys
/// that an index signature admits.
pub open spec fn member_refs(member: TypeMember) -> Seq<TypeRef> {
    match member.kind {
        TypeMemberKind::IndexSignature(key) => seq![key, member.ty],
        _ => seq![member.ty],
    }
}

/// A member of an object.
pub open spec fn member_part(graph: &TypeGraph, ty: TypeId, member: TypeMember) -> Part {
    Part { key: member_key(member.kind), types: resolved_all(graph, ty, member_refs(member)) }
}

/// A variant of a union.
pub open spec fn variant_part(graph: &TypeGraph, variant: TypeId) -> Part {
    Part { key: PartKey::Variant(look_of(graph.data_of(variant))), types: seq![Some(variant)] }
}

/// The parts of a compound type: what it is an instance of and its type
/// arguments, the types that a function speaks of, or its elements, members or
/// variants.
pub open spec fn parts_of(graph: &TypeGraph, ty: TypeId) -> Seq<Part> {
    match graph.data_of(ty) {
        TypeData::Function { type_parameters, parameters, return_type } => seq![
            list_part(graph, ty, function_refs(type_parameters@, parameters@, return_type)),
        ],
        TypeData::InstanceOf { ty: base, type_parameters } => seq![
            list_part(graph, ty, seq![base] + type_parameters@),
        ],
        TypeData::Intersection { types } => seq![list_part(graph, ty, types@)],
        TypeData::Literal(Literal::Object(members)) => Seq::new(
            members@.len(),
            |i: int| member_part(graph, ty, members@[i]),
        ),
        TypeData::Object { members } => Seq::new(
            members@.len(),
            |i: int| member_part(graph, ty, members@[i]),
        ),
        TypeData::Tuple { elements } => seq![list_part(graph, ty, elements@)],
        TypeData::Union { variants } => Seq::new(
            variants@.len(),
            |i: int| variant_part(graph, variants@[i]),
        ),
        _ => Seq::empty(),
    }
}

/// How many of the first `count` parts have this key.
pub open spec fn occurrences(parts: Seq<Part>, key: PartKey, count: nat) -> nat
    decreases count,
{
    if count == 0 {
        0
    } else {
        occurrences(parts, key, (count - 1) as nat) + if parts[count - 1].key == key {
            1nat
        } else {
            0nat
        }
    }
}

/// The one of the first `count` parts that has this key, and `rank` parts with
/// the same key before it.
pub open spec fn nth_part(parts: Seq<Part>, key: PartKey, rank: nat, count: nat) -> Option<nat>
    decreases count,
{
    if count == 0 {
        None
    } else {
        let last = (count - 1) as nat;
        match nth_part(parts, key, rank, last) {
            Some(found) => Some(found),
            None => if parts[last as int].key == key && occurrences(parts, key, last) == rank {
                Some(last)
            } else {
                None
            },
        }
    }
}

/// The part of `to` that corresponds to a part of `from`: the one with the same
/// key. Where a key occurs more than once, the first corresponds to the first,
/// the second to the second, and so on.
pub open spec fn counterpart(from: Seq<Part>, at: nat, to: Seq<Part>) -> Option<nat> {
    let key = from[at as int].key;
    nth_part(to, key, occurrences(from, key, at), to.len())
}

/// Every part of `from` has a counterpart in `to`.
pub open spec fn all_answered(from: Seq<Part>, to: Seq<Part>) -> bool {
    forall|i: nat| i < from.len() ==> (#[trigger] counterpart(from, i, to)) is Some
}

/// Two lists of types are equally long, and no type is missing.
pub open spec fn paired(a: Seq<Option<TypeId>>, b: Seq<Option<TypeId>>) -> bool {
    a.len() == b.len() && forall|i: int|
        0 <= i < a.len() ==> (#[trigger] a[i]) is Some && b[i] is Some
}

/// The types of two lists, pair by pair.
pub open spec fn type_pairs(a: Seq<Option<TypeId>>, b: Seq<Option<TypeId>>) -> Seq<Pair> {
    Seq::new(a.len(), |i: int| (a[i]->0, b[i]->0))
}

/// The pairs of types that the first `count` parts of one type and their
/// counterparts in another give, unless a counterpart or a type is missing.
pub open spec fn paired_parts(from: Seq<Part>, to: Seq<Part>, count: nat) -> Option<Seq<Pair>>
    decreases count,
{
    if count == 0 {
        Some(Seq::empty())
    } else {
        let last = (count - 1) as nat;
        match (paired_parts(from, to, last), counterpart(from, last, to)) {
            (Some(before), Some(at)) => {
                let a = from[last as int].types;
                let b = to[at as int].types;
                if paired(a, b) {
                    Some(before + type_pairs(a, b))
                } else {
                    None
                }
            },
            _ => None,
        }
    }
}

/// Parameters of the same number, each optional or a rest parameter where the
/// other is.
pub open spec fn same_parameters(a: Seq<FunctionParameter>, b: Seq<FunctionParameter>) -> bool {
    a.len() == b.len() && forall|i: int|
        0 <= i < a.len() ==> (#[trigger] a[i]).is_optional == b[i].is_optional && a[i].is_rest
            == b[i].is_rest
}

/// What two functions return is of the same kind, and of the same parameter.
pub open spec fn same_return_kind(a: ReturnType, b: ReturnType) -> bool {
    match (a, b) {
        (ReturnType::Type(_), ReturnType::Type(_)) => true,
        (
            ReturnType::Predicate { parameter: x, ty: _ },
            ReturnType::Predicate { parameter: y, ty: _ },
        ) => x == y,
        (
            ReturnType::Asserts { parameter: x, ty: s },
            ReturnType::Asserts { parameter: y, ty: t },
        ) => x == y && (s is Some <==> t is Some),
        _ => false,
    }
}

/// Two types are compound types of the same kind. Functions have to be of the
/// same form too.
pub open spec fn same_compound(graph: &TypeGraph, a: TypeId, b: TypeId) -> bool {
    match (graph.data_of(a), graph.data_of(b)) {
        (
            TypeData::Function { type_parameters: x, parameters: p, return_type: r },
            TypeData::Function { type_parameters: y, parameters: q, return_type: s },
        ) => x@.len() == y@.len() && same_parameters(p@, q@) && same_return_kind(r, s),
        (TypeData::InstanceOf { .. }, TypeData::InstanceOf { .. }) => true,
        (TypeData::Intersection { .. }, TypeData::Intersection { .. }) => true,
        (TypeData::Literal(Literal::Object(_)), TypeData::Literal(Literal::Object(_))) => true,
        (TypeData::Object { .. }, TypeData::Object { .. }) => true,
        (TypeData::Tuple { .. }, TypeData::Tuple { .. }) => true,
        (TypeData::Union { .. }, TypeData::Union { .. }) => true,
        _ => false,
    }
}

/// The pairs of types that the parts of two compound types of the same kind
/// give, unless one of them has a part that the other lacks, or a type is missing.
pub open spec fn compound_parts(graph: &TypeGraph, a: TypeId, b: TypeId) -> Option<Seq<Pair>> {
    let from = parts_of(graph, a);
    let to = parts_of(graph, b);
    if same_compound(graph, a, b) && all_answered(to, from) {
        paired_parts(from, to, from.len())
    } else {
        None
    }
}

/// The pair of types that is reached from two types in at most `steps` steps,
/// each of which replaces two bare instances with the types that they are
/// instances of.
pub open spec fn unwraps_to(graph: &TypeGraph, a: TypeId, b: TypeId, steps: nat) -> Option<Pair>
    decreases steps,
{
    if !bare_instance(graph, a) || !bare_instance(graph, b) {
        Some((a, b))
    } else if steps == 0 {
        None
    } else {
        match (instance_base(graph, a), instance_base(graph, b)) {
            (Some(x), Some(y)) => unwraps_to(graph, x, y, (steps - 1) as nat),
            _ => None,
        }
    }
}

/// The first pair of types on two chains of bare instances that are not both
/// bare instances, if there is one.
pub open spec fn unwrapped_both(graph: &TypeGraph, a: TypeId, b: TypeId) -> Option<Pair> {
    if !bare_instance(graph, a) || !bare_instance(graph, b) {
        Some((a, b))
    } else if exists|steps: nat| (#[trigger] unwraps_to(graph, a, b, steps)) is Some {
        unwraps_to(
            graph,
            a,
            b,
            choose|steps: nat| (#[trigger] unwraps_to(graph, a, b, steps)) is Some,
        )
    } else {
        None
    }
}

/// Compares two types that are not both bare instances: a type agrees with
/// itself, unless it could not be inferred, simple types are compared as they
/// stand, and compound types lead to their parts.
pub open spec fn unwrapped_step(graph: &TypeGraph, a: TypeId, b: TypeId) -> Step {
    if a == b && !(graph.data_of(a) is Unknown) || same_simple_type(graph, a, b) {
        Step::Checked { widened: false, next: Seq::empty() }
    } else {
        match compound_parts(graph, a, b) {
            Some(next) => Step::Checked { widened: false, next },
            None => Step::Mismatch,
        }
    }
}

/// Compares two types. Bare instances are looked through.
pub open spec fn matching_step(graph: &TypeGraph, pair: Pair) -> Step {
    match unwrapped_both(graph, pair.0, pair.1) {
        Some((a, b)) => unwrapped_step(graph, a, b),
        None => Step::Mismatch,
    }
}

/// The comparison by [`matching_step`].
pub open spec fn matching(graph: &TypeGraph) -> Comparison {
    |pair: Pair| matching_step(graph, pair)
}

/// Two types are structurally equal: they agree in all their parts, of which no
/// more are compared than [`MAX_TYPE_TRAVERSAL_ITERATIONS`].
pub open spec fn same_type(graph: &TypeGraph, a: TypeId, b: TypeId) -> bool {
    agrees(matching(graph), (a, b))
}

/// More steps do not lead elsewhere.
proof fn lemma_unwraps_further(graph: &TypeGraph, a: TypeId, b: TypeId, steps: nat, more: nat)
    requires
        steps <= more,
        unwraps_to(graph, a, b, steps) is Some,
    ensures
        unwraps_to(graph, a, b, more) == unwraps_to(graph, a, b, steps),
    decreases steps,
{
    if bare_instance(graph, a) && bare_instance(graph, b) {
        if let (Some(x), Some(y)) = (instance_base(graph, a), instance_base(graph, b)) {
            lemma_unwraps_further(graph, x, y, (steps - 1) as nat, (more - 1) as nat);
        }
    }
}

/// However many steps lead somewhere, they lead to the same pair.
pub(crate) proof fn lemma_unwrapped_by(graph: &TypeGraph, a: TypeId, b: TypeId, steps: nat)
    requires
        unwraps_to(graph, a, b, steps) is Some,
    ensures
        unwrapped_both(graph, a, b) == unwraps_to(graph, a, b, steps),
{
    let chosen = choose|steps: nat| (#[trigger] unwraps_to(graph, a, b, steps)) is Some;
    if chosen <= steps {
        lemma_unwraps_further(graph, a, b, chosen, steps);
    } else {
        lemma_unwraps_further(graph, a, b, steps, chosen);
    }
}

/// Types that are not both bare instances stand for themselves.
pub(crate) proof fn lemma_unwrapped_here(graph: &TypeGraph, a: TypeId, b: TypeId)
    requires
        !bare_instance(graph, a) || !bare_instance(graph, b),
    ensures
        unwrapped_both(graph, a, b) == Some((a, b)),
{
    lemma_unwrapped_by(graph, a, b, 0);
}

/// Bare instances lead where their bases lead.
pub(crate) proof fn lemma_unwrapped_next(graph: &TypeGraph, a: TypeId, b: TypeId)
    requires
        bare_instance(graph, a),
        bare_instance(graph, b),
    ensures
        unwrapped_both(graph, a, b) == match (instance_base(graph, a), instance_base(graph, b)) {
            (Some(x), Some(y)) => unwrapped_both(graph, x, y),
            _ => None,
        },
{
    if let (Some(x), Some(y)) = (instance_base(graph, a), instance_base(graph, b)) {
        if exists|steps: nat| (#[trigger] unwraps_to(graph, x, y, steps)) is Some {
            let steps = choose|steps: nat| (#[trigger] unwraps_to(graph, x, y, steps)) is Some;
            assert((steps + 1 - 1) as nat == steps);
            assert(unwraps_to(graph, a, b, steps + 1) == unwraps_to(graph, x, y, steps));
            lemma_unwrapped_by(graph, a, b, steps + 1);
            lemma_unwrapped_by(graph, x, y, steps);
        } else {
            assert forall|steps: nat| (#[trigger] unwraps_to(graph, a, b, steps)) is None by {
                if steps > 0 {
                    assert(unwraps_to(graph, x, y, (steps - 1) as nat) is None);
                }
            }
        }
    } else {
        assert forall|steps: nat| (#[trigger] unwraps_to(graph, a, b, steps)) is None by {}
    }
}

/// The type reached from a type through `steps` bare instances.
spec fn unwrapped(graph: &TypeGraph, ty: TypeId, steps: nat) -> TypeId
    decreases steps,
{
    if steps == 0 {
        ty
    } else {
        let previous = unwrapped(graph, ty, (steps - 1) as nat);
        match instance_base(graph, previous) {
            Some(base) => base,
            None => previous,
        }
    }
}

spec fn linked(graph: &TypeGraph, ty: TypeId, steps: nat) -> bool {
    instance_base(graph, unwrapped(graph, ty, steps)) is Some
}

proof fn lemma_unwrapped_in_range(graph: &TypeGraph, ty: TypeId, steps: nat)
    requires
        graph.well_formed(),
        ty < graph.size(),
    ensures
        unwrapped(graph, ty, steps) < graph.size(),
    decreases steps,
{
    if steps > 0 {
        lemma_unwrapped_in_range(graph, ty, (steps - 1) as nat);
        let previous = unwrapped(graph, ty, (steps - 1) as nat);
        let scope = graph.types@[previous as int].scope;
        assert(graph.types@[previous as int].well_formed(graph.size(), graph.scopes@.len()));
        assert(crate::types::scope_well_formed(graph.scopes@[scope as int]@, graph.size()));
    }
}

proof fn lemma_unwrapped_shift(graph: &TypeGraph, ty: TypeId, i: nat, j: nat, more: nat)
    requires
        unwrapped(graph, ty, i) == unwrapped(graph, ty, j),
    ensures
        unwrapped(graph, ty, i + more) == unwrapped(graph, ty, j + more),
    decreases more,
{
    if more > 0 {
        lemma_unwrapped_shift(graph, ty, i, j, (more - 1) as nat);
        assert((i + more - 1) as nat == i + (more - 1) as nat);
        assert((j + more - 1) as nat == j + (more - 1) as nat);
    }
}

/// Among more positions than there are types two hold the same type.
proof fn lemma_repeat(graph: &TypeGraph, ty: TypeId) -> (pair: (nat, nat))
    requires
        graph.well_formed(),
        ty < graph.size(),
    ensures
        pair.0 < pair.1 <= graph.size(),
        unwrapped(graph, ty, pair.0) == unwrapped(graph, ty, pair.1),
{
    let size = graph.size();
    let path = Seq::new(size + 1, |i: int| unwrapped(graph, ty, i as nat) as int);
    if path.no_duplicates() {
        path.unique_seq_to_set();
        vstd::set_lib::lemma_int_range(0, size as int);
        assert forall|x: int| path.to_set().contains(x) implies vstd::set_lib::set_int_range(
            0,
            size as int,
        ).contains(x) by {
            let i = choose|i: int| 0 <= i < path.len() && path[i] == x;
            lemma_unwrapped_in_range(graph, ty, i as nat);
        }
        vstd::set_lib::lemma_len_subset(
            path.to_set(),
            vstd::set_lib::set_int_range(0, size as int),
        );
        assert(false);
    }
    let (i, j) = choose|i: int, j: int|
        0 <= i < path.len() && 0 <= j < path.len() && i != j && path[i] == path[j];
    if i < j {
        (i as nat, j as nat)
    } else {
        (j as nat, i as nat)
    }
}

/// A chain of bare instances longer than the graph never ends.
proof fn lemma_linked_forever(graph: &TypeGraph, ty: TypeId, steps: nat)
    requires
        graph.well_formed(),
        ty < graph.size(),
        forall|k: nat| k <= graph.size() ==> linked(graph, ty, k),
    ensures
        linked(graph, ty, steps),
    decreases steps,
{
    if steps > graph.size() {
        let (i, j) = lemma_repeat(graph, ty);
        lemma_unwrapped_shift(graph, ty, i, j, (steps - j) as nat);
        lemma_linked_forever(graph, ty, (steps - (j - i)) as nat);
    }
}

proof fn lemma_never_unwrapped(graph: &TypeGraph, a: TypeId, b: TypeId, done: nat, steps: nat)
    requires
        forall|k: nat| linked(graph, a, k) && linked(graph, b, k),
    ensures
        unwraps_to(graph, unwrapped(graph, a, done), unwrapped(graph, b, done), steps) is None,
    decreases steps,
{
    assert(linked(graph, a, done) && linked(graph, b, done));
    if steps > 0 {
        assert((done + 1 - 1) as nat == done);
        lemma_never_unwrapped(graph, a, b, done + 1, (steps - 1) as nat);
    }
}

/// Two chains of bare instances that are longer than the graph lead nowhere.
proof fn lemma_endless_chains(graph: &TypeGraph, a: TypeId, b: TypeId)
    requires
        graph.well_formed(),
        a < graph.size(),
        b < graph.size(),
        forall|k: nat| k <= graph.size() ==> linked(graph, a, k) && linked(graph, b, k),
    ensures
        unwrapped_both(graph, a, b) is None,
{
    assert forall|k: nat| linked(graph, a, k) && linked(graph, b, k) by {
        lemma_linked_forever(graph, a, k);
        lemma_linked_forever(graph, b, k);
    }
    assert(linked(graph, a, 0) && linked(graph, b, 0));
    assert forall|steps: nat| (#[trigger] unwraps_to(graph, a, b, steps)) is None by {
        lemma_never_unwrapped(graph, a, b, 0, steps);
    }
}

/// Whether two literals that are no objects are written alike.
pub fn literals_equal(a: &Literal, b: &Literal) -> (equal: bool)
    ensures
        equal == same_literal(*a, *b),
{
    match (a, b) {
        (Literal::BigInt(x), Literal::BigInt(y)) => *x == *y,
        (Literal::Boolean(x), Literal::Boolean(y)) => *x == *y,
        (Literal::Number(x), Literal::Number(y)) => *x == *y,
        (
            Literal::RegExp { pattern: p, flags: f },
            Literal::RegExp { pattern: q, flags: g },
        ) => *p == *q && *f == *g,
        (Literal::String(x), Literal::String(y)) => *x == *y,
        (Literal::Template(x), Literal::Template(y)) => *x == *y,
        _ => false,
    }
}

fn is_instance_of_generic(graph: &TypeGraph, ty: TypeId, name: &String) -> (found: bool)
    requires
        graph.well_formed(),
        ty < graph.size(),
    ensures
        found == instance_of_generic(graph, ty, name@),
{
    if let TypeData::InstanceOf { ty: base, type_parameters } = graph.data(ty) {
        if type_parameters.len() == 0 {
            if let Some(base) = graph.resolve(ty, *base) {
                if let TypeData::Generic { name: found, .. } = graph.data(base) {
                    return *found == *name;
                }
            }
        }
    }
    false
}

fn base_of_bare_instance(graph: &TypeGraph, ty: TypeId) -> (base: Option<Option<TypeId>>)
    requires
        graph.well_formed(),
        ty < graph.size(),
    ensures
        base is Some <==> bare_instance(graph, ty),
        base matches Some(found) ==> found == instance_base(graph, ty),
        base matches Some(Some(found)) ==> found < graph.size(),
{
    match graph.data(ty) {
        TypeData::InstanceOf { ty: base, type_parameters } if type_parameters.len() == 0 => {
            Some(graph.resolve(ty, *base))
        },
        _ => None,
    }
}

fn simple_types_match(graph: &TypeGraph, a: TypeId, b: TypeId) -> (matches: bool)
    requires
        graph.well_formed(),
        a < graph.size(),
        b < graph.size(),
    ensures
        matches == same_simple_type(graph, a, b),
{
    match (graph.data(a), graph.data(b)) {
        (TypeData::AnyKeyword, TypeData::AnyKeyword) => true,
        (TypeData::NeverKeyword, TypeData::NeverKeyword) => true,
        (TypeData::ThisKeyword, TypeData::ThisKeyword) => true,
        (TypeData::UnknownKeyword, TypeData::UnknownKeyword) => true,
        (TypeData::VoidKeyword, TypeData::VoidKeyword) => true,
        (TypeData::BigInt, TypeData::BigInt) => true,
        (TypeData::Boolean, TypeData::Boolean) => true,
        (TypeData::Null, TypeData::Null) => true,
        (TypeData::Number, TypeData::Number) => true,
        (TypeData::String, TypeData::String) => true,
        (TypeData::Undefined, TypeData::Undefined) => true,
        (TypeData::Literal(x), TypeData::Literal(y)) => literals_equal(x, y),
        (TypeData::Generic { name: x, .. }, TypeData::Generic { name: y, .. }) => *x == *y,
        (TypeData::Generic { name, .. }, TypeData::InstanceOf { .. }) => {
            is_instance_of_generic(graph, b, name)
        },
        (TypeData::InstanceOf { .. }, TypeData::Generic { name, .. }) => {
            is_instance_of_generic(graph, a, name)
        },
        _ => false,
    }
}

/// Whether two literals look alike.
fn literals_look_alike(a: &Literal, b: &Literal) -> (alike: bool)
    ensures
        alike == (look_of_literal(*a) == look_of_literal(*b)),
{
    match (a, b) {
        (Literal::Object(_), Literal::Object(_)) => true,
        _ => literals_equal(a, b),
    }
}

/// Whether two types look alike.
fn types_look_alike(a: &TypeData, b: &TypeData) -> (alike: bool)
    ensures
        alike == (look_of(*a) == look_of(*b)),
{
    match (a, b) {
        (TypeData::Unknown, TypeData::Unknown) => true,
        (TypeData::AnyKeyword, TypeData::AnyKeyword) => true,
        (TypeData::NeverKeyword, TypeData::NeverKeyword) => true,
        (TypeData::ThisKeyword, TypeData::ThisKeyword) => true,
        (TypeData::UnknownKeyword, TypeData::UnknownKeyword) => true,
        (TypeData::VoidKeyword, TypeData::VoidKeyword) => true,
        (TypeData::BigInt, TypeData::BigInt) => true,
        (TypeData::Boolean, TypeData::Boolean) => true,
        (TypeData::Null, TypeData::Null) => true,
        (TypeData::Number, TypeData::Number) => true,
        (TypeData::String, TypeData::String) => true,
        (TypeData::Undefined, TypeData::Undefined) => true,
        (TypeData::Function { .. }, TypeData::Function { .. }) => true,
        (TypeData::Generic { .. }, TypeData::Generic { .. }) => true,
        (TypeData::Generic { .. }, TypeData::InstanceOf { .. }) => true,
        (TypeData::InstanceOf { .. }, TypeData::Generic { .. }) => true,
        (TypeData::InstanceOf { .. }, TypeData::InstanceOf { .. }) => true,
        (TypeData::Intersection { .. }, TypeData::Intersection { .. }) => true,
        (TypeData::Literal(x), TypeData::Literal(y)) => literals_look_alike(x, y),
        (TypeData::Object { .. }, TypeData::Object { .. }) => true,
        (TypeData::Tuple { .. }, TypeData::Tuple { .. }) => true,
        (TypeData::Union { .. }, TypeData::Union { .. }) => true,
        (TypeData::Other, TypeData::Other) => true,
        _ => false,
    }
}

fn member_keys_equal(a: &TypeMemberKind, b: &TypeMemberKind) -> (equal: bool)
    ensures
        equal == (member_key(*a) == member_key(*b)),
{
    match (a, b) {
        (TypeMemberKind::CallSignature, TypeMemberKind::CallSignature) => true,
        (TypeMemberKind::Constructor, TypeMemberKind::Constructor) => true,
        (TypeMemberKind::Getter(x), TypeMemberKind::Getter(y)) => *x == *y,
        (TypeMemberKind::IndexSignature(_), TypeMemberKind::IndexSignature(_)) => true,
        (TypeMemberKind::Named(x), TypeMemberKind::Named(y)) => *x == *y,
        (TypeMemberKind::NamedOptional(x), TypeMemberKind::NamedOptional(y)) => *x == *y,
        (TypeMemberKind::NamedStatic(x), TypeMemberKind::NamedStatic(y)) => *x == *y,
        _ => false,
    }
}

/// How many parts a type has.
fn part_count(graph: &TypeGraph, ty: TypeId) -> (count: usize)
    requires
        ty < graph.size(),
    ensures
        count == parts_of(graph, ty).len(),
{
    match graph.data(ty) {
        TypeData::Function { .. } => 1,
        TypeData::InstanceOf { .. } => 1,
        TypeData::Intersection { .. } => 1,
        TypeData::Literal(Literal::Object(members)) => members.len(),
        TypeData::Object { members } => members.len(),
        TypeData::Tuple { .. } => 1,
        TypeData::Union { variants } => variants.len(),
        _ => 0,
    }
}

/// Whether a part of a type has the same key as a part of another type.
fn part_keys_equal(graph: &TypeGraph, a: TypeId, i: usize, b: TypeId, k: usize) -> (equal: bool)
    requires
        graph.well_formed(),
        a < graph.size(),
        b < graph.size(),
        same_compound(graph, a, b),
        i < parts_of(graph, a).len(),
        k < parts_of(graph, b).len(),
    ensures
        equal == (parts_of(graph, a)[i as int].key == parts_of(graph, b)[k as int].key),
{
    match (graph.data(a), graph.data(b)) {
        (TypeData::Object { members: x }, TypeData::Object { members: y }) => {
            member_keys_equal(&x[i].kind, &y[k].kind)
        },
        (TypeData::Literal(Literal::Object(x)), TypeData::Literal(Literal::Object(y))) => {
            member_keys_equal(&x[i].kind, &y[k].kind)
        },
        (TypeData::Union { variants: x }, TypeData::Union { variants: y }) => {
            assert(graph.types@[a as int].well_formed(graph.size(), graph.scopes@.len()));
            assert(graph.types@[b as int].well_formed(graph.size(), graph.scopes@.len()));
            types_look_alike(graph.data(x[i]), graph.data(y[k]))
        },
        _ => true,
    }
}

/// The part that is found stays the one when more parts are searched.
proof fn lemma_nth_part_stops(parts: Seq<Part>, key: PartKey, rank: nat, count: nat, more: nat)
    requires
        count <= more,
        nth_part(parts, key, rank, count) is Some,
    ensures
        nth_part(parts, key, rank, more) == nth_part(parts, key, rank, count),
    decreases more,
{
    if count < more {
        lemma_nth_part_stops(parts, key, rank, count, (more - 1) as nat);
    }
}

proof fn lemma_occurrences_grow(parts: Seq<Part>, key: PartKey, count: nat, more: nat)
    requires
        count <= more,
    ensures
        occurrences(parts, key, count) <= occurrences(parts, key, more),
    decreases more,
{
    if count < more {
        lemma_occurrences_grow(parts, key, count, (more - 1) as nat);
    }
}

/// The part that is found has the key and the rank.
pub(crate) proof fn lemma_nth_part_found(parts: Seq<Part>, key: PartKey, rank: nat, count: nat)
    requires
        nth_part(parts, key, rank, count) is Some,
    ensures
        ({
            let found = nth_part(parts, key, rank, count)->0;
            &&& found < count
            &&& parts[found as int].key == key
            &&& occurrences(parts, key, found) == rank
        }),
    decreases count,
{
    if count > 0 && nth_part(parts, key, rank, (count - 1) as nat) is Some {
        lemma_nth_part_found(parts, key, rank, (count - 1) as nat);
    }
}

/// Every part is found by its key and its rank.
pub(crate) proof fn lemma_nth_part_of_own(parts: Seq<Part>, at: nat, count: nat)
    requires
        at < count,
    ensures
        ({
            let key = parts[at as int].key;
            nth_part(parts, key, occurrences(parts, key, at), count) == Some(at)
        }),
{
    let key = parts[at as int].key;
    let rank = occurrences(parts, key, at);
    if nth_part(parts, key, rank, at) is Some {
        lemma_nth_part_found(parts, key, rank, at);
        let found = nth_part(parts, key, rank, at)->0;
        lemma_occurrences_grow(parts, key, found + 1, at);
        assert((found + 1 - 1) as nat == found);
        assert(false);
    }
    assert((at + 1 - 1) as nat == at);
    lemma_nth_part_stops(parts, key, rank, at + 1, count);
}

/// Two types of the same kind are of the same kind as themselves, whichever
/// comes first.
pub(crate) proof fn lemma_same_compound(graph: &TypeGraph, a: TypeId, b: TypeId)
    requires
        same_compound(graph, a, b),
    ensures
        same_compound(graph, a, a),
        same_compound(graph, b, a),
{
}

/// The part of another type that corresponds to a part of a type.
fn find_counterpart(graph: &TypeGraph, from: TypeId, at: usize, to: TypeId) -> (found: Option<
    usize,
>)
    requires
        graph.well_formed(),
        from < graph.size(),
        to < graph.size(),
        same_compound(graph, from, to),
        at < parts_of(graph, from).len(),
    ensures
        found is Some <==> counterpart(parts_of(graph, from), at as nat, parts_of(graph, to))
            is Some,
        found matches Some(index) ==> {
            &&& index < parts_of(graph, to).len()
            &&& counterpart(parts_of(graph, from), at as nat, parts_of(graph, to)) == Some(
                index as nat,
            )
        },
{
    let ghost own = parts_of(graph, from);
    let ghost others = parts_of(graph, to);
    let ghost key = own[at as int].key;
    proof {
        lemma_same_compound(graph, from, to);
    }
    let mut rank: usize = 0;
    let mut i: usize = 0;
    while i < at
        invariant
            graph.well_formed(),
            from < graph.size(),
            same_compound(graph, from, from),
            own == parts_of(graph, from),
            at < own.len(),
            key == own[at as int].key,
            i <= at,
            rank == occurrences(own, key, i as nat),
            rank <= i,
        decreases at - i,
    {
        if part_keys_equal(graph, from, i, from, at) {
            rank = rank + 1;
        }
        i = i + 1;
    }
    let count: usize = part_count(graph, to);
    let mut seen: usize = 0;
    let mut k: usize = 0;
    while k < count
        invariant
            graph.well_formed(),
            from < graph.size(),
            to < graph.size(),
            same_compound(graph, to, from),
            own == parts_of(graph, from),
            others == parts_of(graph, to),
            at < own.len(),
            key == own[at as int].key,
            rank == occurrences(own, key, at as nat),
            count == others.len(),
            k <= count,
            seen == occurrences(others, key, k as nat),
            seen <= k,
            nth_part(others, key, rank as nat, k as nat) is None,
        decreases count - k,
    {
        if part_keys_equal(graph, to, k, from, at) {
            if seen == rank {
                proof {
                    lemma_nth_part_stops(others, key, rank as nat, (k + 1) as nat, others.len());
                }
                return Some(k);
            }
            seen = seen + 1;
        }
        k = k + 1;
    }
    None
}

fn are_all_answered(graph: &TypeGraph, from: TypeId, to: TypeId) -> (answered: bool)
    requires
        graph.well_formed(),
        from < graph.size(),
        to < graph.size(),
        same_compound(graph, from, to),
    ensures
        answered == all_answered(parts_of(graph, from), parts_of(graph, to)),
{
    let count: usize = part_count(graph, from);
    let mut i: usize = 0;
    while i < count
        invariant
            graph.well_formed(),
            from < graph.size(),
            to < graph.size(),
            same_compound(graph, from, to),
            count == parts_of(graph, from).len(),
            i <= count,
            forall|k: nat|
                k < i ==> (#[trigger] counterpart(
                    parts_of(graph, from),
                    k,
                    parts_of(graph, to),
                )) is Some,
        decreases count - i,
    {
        if find_counterpart(graph, from, i, to).is_none() {
            assert(counterpart(parts_of(graph, from), i as nat, parts_of(graph, to)) is None);
            return false;
        }
        i = i + 1;
    }
    true
}

/// Every type that is there is one of `size` types.
spec fn types_in_range(types: Seq<Option<TypeId>>, size: nat) -> bool {
    forall|i: int|
        0 <= i < types.len() ==> match #[trigger] types[i] {
            Some(ty) => ty < size,
            None => true,
        }
}

fn resolve_all(graph: &TypeGraph, ty: TypeId, refs: &Vec<TypeRef>) -> (types: Vec<Option<TypeId>>)
    requires
        graph.well_formed(),
        ty < graph.size(),
    ensures
        types@ == resolved_all(graph, ty, refs@),
        types_in_range(types@, graph.size()),
{
    let mut types: Vec<Option<TypeId>> = Vec::new();
    let mut i: usize = 0;
    while i < refs.len()
        invariant
            graph.well_formed(),
            ty < graph.size(),
            i <= refs@.len(),
            types@ == resolved_all(graph, ty, refs@.take(i as int)),
            types_in_range(types@, graph.size()),
        decreases refs@.len() - i,
    {
        types.push(graph.resolve(ty, refs[i]));
        i = i + 1;
        assert(types@ =~= resolved_all(graph, ty, refs@.take(i as int)));
    }
    assert(refs@.take(refs@.len() as int) =~= refs@);
    types
}

fn resolve_member(graph: &TypeGraph, ty: TypeId, member: &TypeMember) -> (types: Vec<
    Option<TypeId>,
>)
    requires
        graph.well_formed(),
        ty < graph.size(),
    ensures
        types@ == resolved_all(graph, ty, member_refs(*member)),
        types_in_range(types@, graph.size()),
{
    let mut refs: Vec<TypeRef> = Vec::new();
    if let TypeMemberKind::IndexSignature(key) = &member.kind {
        refs.push(*key);
    }
    refs.push(member.ty);
    assert(refs@ =~= member_refs(*member));
    resolve_all(graph, ty, &refs)
}

fn resolve_instance(
    graph: &TypeGraph,
    ty: TypeId,
    base: TypeRef,
    type_parameters: &Vec<TypeRef>,
) -> (types: Vec<Option<TypeId>>)
    requires
        graph.well_formed(),
        ty < graph.size(),
    ensures
        types@ == resolved_all(graph, ty, seq![base] + type_parameters@),
        types_in_range(types@, graph.size()),
{
    let mut refs: Vec<TypeRef> = Vec::new();
    refs.push(base);
    let mut i: usize = 0;
    assert(refs@ =~= seq![base] + type_parameters@.take(0));
    while i < type_parameters.len()
        invariant
            i <= type_parameters@.len(),
            refs@ == seq![base] + type_parameters@.take(i as int),
        decreases type_parameters@.len() - i,
    {
        refs.push(type_parameters[i]);
        i = i + 1;
        assert(refs@ =~= seq![base] + type_parameters@.take(i as int));
    }
    assert(type_parameters@.take(type_parameters@.len() as int) =~= type_parameters@);
    resolve_all(graph, ty, &refs)
}

fn resolve_function(
    graph: &TypeGraph,
    ty: TypeId,
    type_parameters: &Vec<TypeRef>,
    parameters: &Vec<FunctionParameter>,
    return_type: &ReturnType,
) -> (types: Vec<Option<TypeId>>)
    requires
        graph.well_formed(),
        ty < graph.size(),
    ensures
        types@ == resolved_all(
            graph,
            ty,
            function_refs(type_parameters@, parameters@, *return_type),
        ),
        types_in_range(types@, graph.size()),
{
    let mut refs: Vec<TypeRef> = Vec::new();
    let mut i: usize = 0;
    while i < type_parameters.len()
        invariant
            i <= type_parameters@.len(),
            refs@ == type_parameters@.take(i as int),
        decreases type_parameters@.len() - i,
    {
        refs.push(type_parameters[i]);
        i = i + 1;
        assert(refs@ =~= type_parameters@.take(i as int));
    }
    assert(type_parameters@.take(type_parameters@.len() as int) =~= type_parameters@);
    let mut k: usize = 0;
    assert(refs@ =~= type_parameters@ + Seq::new(0, |n: int| parameters@[n].ty));
    while k < parameters.len()
        invariant
            k <= parameters@.len(),
            refs@ == type_parameters@ + Seq::new(k as nat, |n: int| parameters@[n].ty),
        decreases parameters@.len() - k,
    {
        refs.push(parameters[k].ty);
        k = k + 1;
        assert(refs@ =~= type_parameters@ + Seq::new(k as nat, |n: int| parameters@[n].ty));
    }
    match return_type {
        ReturnType::Type(returned) => {
            refs.push(*returned);
        },
        ReturnType::Predicate { ty: asserted, .. } => {
            refs.push(*asserted);
        },
        ReturnType::Asserts { ty: Some(asserted), .. } => {
            refs.push(*asserted);
        },
        ReturnType::Asserts { ty: None, .. } => {},
    }
    assert(refs@ =~= function_refs(type_parameters@, parameters@, *return_type));
    resolve_all(graph, ty, &refs)
}

/// The types that a part of a type is made of.
fn types_of_part(graph: &TypeGraph, ty: TypeId, at: usize) -> (types: Vec<Option<TypeId>>)
    requires
        graph.well_formed(),
        ty < graph.size(),
        at < parts_of(graph, ty).len(),
    ensures
        types@ == parts_of(graph, ty)[at as int].types,
        types_in_range(types@, graph.size()),
{
    match graph.data(ty) {
        TypeData::Function { type_parameters, parameters, return_type } => {
            resolve_function(graph, ty, type_parameters, parameters, return_type)
        },
        TypeData::InstanceOf { ty: base, type_parameters } => {
            resolve_instance(graph, ty, *base, type_parameters)
        },
        TypeData::Intersection { types } => resolve_all(graph, ty, types),
        TypeData::Literal(Literal::Object(members)) => resolve_member(graph, ty, &members[at]),
        TypeData::Object { members } => resolve_member(graph, ty, &members[at]),
        TypeData::Tuple { elements } => resolve_all(graph, ty, elements),
        TypeData::Union { variants } => {
            assert(graph.types@[ty as int].well_formed(graph.size(), graph.scopes@.len()));
            let mut types: Vec<Option<TypeId>> = Vec::new();
            types.push(Some(variants[at]));
            assert(types@ =~= seq![Some(variants@[at as int])]);
            types
        },
        _ => Vec::new(),
    }
}

/// Pushes the types of two lists pair by pair, if none is missing.
fn push_type_pairs(
    a: &Vec<Option<TypeId>>,
    b: &Vec<Option<TypeId>>,
    stack: &mut Vec<Pair>,
    Ghost(size): Ghost<nat>,
) -> (complete: bool)
    requires
        types_in_range(a@, size),
        types_in_range(b@, size),
        pairs_in_range(old(stack)@, size),
    ensures
        complete == paired(a@, b@),
        complete ==> final(stack)@ == old(stack)@ + type_pairs(a@, b@),
        pairs_in_range(final(stack)@, size),
{
    if a.len() != b.len() {
        return false;
    }
    let ghost before = stack@;
    let mut i: usize = 0;
    assert(stack@ =~= before + type_pairs(a@, b@).take(0));
    while i < a.len()
        invariant
            before == old(stack)@,
            types_in_range(a@, size),
            types_in_range(b@, size),
            a@.len() == b@.len(),
            i <= a@.len(),
            forall|j: int| 0 <= j < i ==> (#[trigger] a@[j]) is Some && b@[j] is Some,
            stack@ == before + type_pairs(a@, b@).take(i as int),
            pairs_in_range(stack@, size),
        decreases a@.len() - i,
    {
        match (a[i], b[i]) {
            (Some(x), Some(y)) => {
                stack.push((x, y));
                assert(type_pairs(a@, b@)[i as int] == (x, y));
                assert(stack@ =~= before + type_pairs(a@, b@).take(i + 1));
            },
            _ => {
                assert(!(a@[i as int] is Some && b@[i as int] is Some));
                return false;
            },
        }
        i = i + 1;
    }
    assert(type_pairs(a@, b@).take(a@.len() as int) =~= type_pairs(a@, b@));
    true
}

/// Nothing comes of the parts after one that has no counterpart.
proof fn lemma_paired_parts_stop(from: Seq<Part>, to: Seq<Part>, count: nat, more: nat)
    requires
        count <= more,
        paired_parts(from, to, count) is None,
    ensures
        paired_parts(from, to, more) is None,
    decreases more,
{
    if count < more {
        lemma_paired_parts_stop(from, to, count, (more - 1) as nat);
    }
}

fn parameters_agree(a: &Vec<FunctionParameter>, b: &Vec<FunctionParameter>) -> (agree: bool)
    ensures
        agree == same_parameters(a@, b@),
{
    if a.len() != b.len() {
        return false;
    }
    let mut i: usize = 0;
    while i < a.len()
        invariant
            i <= a@.len(),
            a@.len() == b@.len(),
            forall|k: int|
                0 <= k < i ==> (#[trigger] a@[k]).is_optional == b@[k].is_optional && a@[k].is_rest
                    == b@[k].is_rest,
        decreases a@.len() - i,
    {
        if a[i].is_optional != b[i].is_optional || a[i].is_rest != b[i].is_rest {
            assert(!(a@[i as int].is_optional == b@[i as int].is_optional && a@[i as int].is_rest
                == b@[i as int].is_rest));
            return false;
        }
        i = i + 1;
    }
    true
}

fn return_kinds_agree(a: &ReturnType, b: &ReturnType) -> (agree: bool)
    ensures
        agree == same_return_kind(*a, *b),
{
    match (a, b) {
        (ReturnType::Type(_), ReturnType::Type(_)) => true,
        (
            ReturnType::Predicate { parameter: x, .. },
            ReturnType::Predicate { parameter: y, .. },
        ) => positions_equal(*x, *y),
        (
            ReturnType::Asserts { parameter: x, ty: s },
            ReturnType::Asserts { parameter: y, ty: t },
        ) => positions_equal(*x, *y) && s.is_some() == t.is_some(),
        _ => false,
    }
}

fn positions_equal(a: Option<usize>, b: Option<usize>) -> (equal: bool)
    ensures
        equal == (a == b),
{
    match (a, b) {
        (Some(x), Some(y)) => x == y,
        (None, None) => true,
        _ => false,
    }
}

/// Whether two types are compound types of the same kind.
fn is_same_compound(graph: &TypeGraph, a: TypeId, b: TypeId) -> (same: bool)
    requires
        a < graph.size(),
        b < graph.size(),
    ensures
        same == same_compound(graph, a, b),
{
    match (graph.data(a), graph.data(b)) {
        (
            TypeData::Function { type_parameters: x, parameters: p, return_type: r },
            TypeData::Function { type_parameters: y, parameters: q, return_type: s },
        ) => x.len() == y.len() && parameters_agree(p, q) && return_kinds_agree(r, s),
        (TypeData::InstanceOf { .. }, TypeData::InstanceOf { .. }) => true,
        (TypeData::Intersection { .. }, TypeData::Intersection { .. }) => true,
        (TypeData::Literal(Literal::Object(_)), TypeData::Literal(Literal::Object(_))) => true,
        (TypeData::Object { .. }, TypeData::Object { .. }) => true,
        (TypeData::Tuple { .. }, TypeData::Tuple { .. }) => true,
        (TypeData::Union { .. }, TypeData::Union { .. }) => true,
        _ => false,
    }
}

/// Pushes the pairs that the parts of two compound types give, if the types are
/// of the same kind and their parts correspond.
fn push_compound_parts(graph: &TypeGraph, a: TypeId, b: TypeId, stack: &mut Vec<Pair>) -> (complete:
    bool)
    requires
        graph.well_formed(),
        a < graph.size(),
        b < graph.size(),
        pairs_in_range(old(stack)@, graph.size()),
    ensures
        pairs_in_range(final(stack)@, graph.size()),
        match compound_parts(graph, a, b) {
            Some(pairs) => complete && final(stack)@ == old(stack)@ + pairs,
            None => !complete,
        },
{
    if !is_same_compound(graph, a, b) {
        return false;
    }
    proof {
        lemma_same_compound(graph, a, b);
    }
    if !are_all_answered(graph, b, a) {
        return false;
    }
    let ghost from = parts_of(graph, a);
    let ghost to = parts_of(graph, b);
    let ghost before = stack@;
    let count: usize = part_count(graph, a);
    let mut i: usize = 0;
    assert(stack@ =~= before + Seq::<Pair>::empty());
    while i < count
        invariant
            graph.well_formed(),
            a < graph.size(),
            b < graph.size(),
            same_compound(graph, a, b),
            from == parts_of(graph, a),
            to == parts_of(graph, b),
            all_answered(to, from),
            before == old(stack)@,
            count == from.len(),
            i <= count,
            paired_parts(from, to, i as nat) is Some,
            stack@ == before + paired_parts(from, to, i as nat)->0,
            pairs_in_range(stack@, graph.size()),
        decreases count - i,
    {
        let ghost pairs = paired_parts(from, to, i as nat)->0;
        assert((i + 1 - 1) as nat == i as nat);
        let complete = match find_counterpart(graph, a, i, b) {
            Some(at) => {
                let types = types_of_part(graph, a, i);
                let others = types_of_part(graph, b, at);
                let complete = push_type_pairs(&types, &others, stack, Ghost(graph.size()));
                assert(complete ==> stack@ =~= before + (pairs + type_pairs(types@, others@)));
                complete
            },
            None => false,
        };
        if !complete {
            proof {
                lemma_paired_parts_stop(from, to, (i + 1) as nat, from.len());
            }
            return false;
        }
        i = i + 1;
    }
    true
}

/// The pair of types that two chains of bare instances lead to.
fn unwrap_both(graph: &TypeGraph, a: TypeId, b: TypeId) -> (reached: Option<Pair>)
    requires
        graph.well_formed(),
        a < graph.size(),
        b < graph.size(),
    ensures
        reached == unwrapped_both(graph, a, b),
        reached matches Some(pair) ==> pair.0 < graph.size() && pair.1 < graph.size(),
{
    let mut x: TypeId = a;
    let mut y: TypeId = b;
    let size: usize = graph.types.len();
    let mut steps: usize = 0;
    loop
        invariant
            graph.well_formed(),
            a < graph.size(),
            b < graph.size(),
            size == graph.size(),
            steps <= size,
            x < graph.size(),
            y < graph.size(),
            x == unwrapped(graph, a, steps as nat),
            y == unwrapped(graph, b, steps as nat),
            forall|k: nat| k < steps ==> linked(graph, a, k) && linked(graph, b, k),
            unwrapped_both(graph, a, b) == unwrapped_both(graph, x, y),
        decreases size - steps,
    {
        match (base_of_bare_instance(graph, x), base_of_bare_instance(graph, y)) {
            (Some(p), Some(q)) => {
                proof {
                    lemma_unwrapped_next(graph, x, y);
                }
                match (p, q) {
                    (Some(p), Some(q)) => {
                        assert(linked(graph, a, steps as nat) && linked(graph, b, steps as nat));
                        if steps == size {
                            proof {
                                lemma_endless_chains(graph, a, b);
                            }
                            return None;
                        }
                        x = p;
                        y = q;
                        steps = steps + 1;
                    },
                    _ => {
                        return None;
                    },
                }
            },
            _ => {
                proof {
                    lemma_unwrapped_here(graph, x, y);
                }
                return Some((x, y));
            },
        }
    }
}

/// Compares two types, and pushes the pairs of parts that have yet to be
/// compared. Tells whether the types agree so far.
fn push_matching_parts(graph: &TypeGraph, a: TypeId, b: TypeId, stack: &mut Vec<Pair>) -> (agree:
    bool)
    requires
        graph.well_formed(),
        a < graph.size(),
        b < graph.size(),
        pairs_in_range(old(stack)@, graph.size()),
    ensures
        pairs_in_range(final(stack)@, graph.size()),
        match matching_step(graph, (a, b)) {
            Step::Mismatch => !agree,
            Step::Checked { widened: _, next } => agree && final(stack)@ == old(stack)@ + next,
        },
{
    let (x, y) = match unwrap_both(graph, a, b) {
        Some(pair) => pair,
        None => {
            return false;
        },
    };
    let known = !matches!(graph.data(x), TypeData::Unknown);
    if x == y && known || simple_types_match(graph, x, y) {
        assert(stack@ =~= stack@ + Seq::<Pair>::empty());
        return true;
    }
    push_compound_parts(graph, x, y, stack)
}

/// Checks structural equality between two types, part by part. Members of
/// objects are compared by kind and name, and variants of unions in any order as
/// far as they do not look alike. No more than [`MAX_TYPE_TRAVERSAL_ITERATIONS`]
/// pairs are compared, which also bounds the comparison of types that refer to
/// themselves.
pub fn types_match(graph: &TypeGraph, a: TypeId, b: TypeId) -> (matches: bool)
    requires
        graph.well_formed(),
        a < graph.size(),
        b < graph.size(),
    ensures
        matches == same_type(graph, a, b),
{
    let mut stack: Vec<Pair> = Vec::new();
    stack.push((a, b));
    let mut iterations: usize = 0;
    assert(stack@ =~= seq![(a, b)]);
    loop
        invariant
            graph.well_formed(),
            iterations <= MAX_TYPE_TRAVERSAL_ITERATIONS,
            pairs_in_range(stack@, graph.size()),
            same_type(graph, a, b) == settled(
                matching(graph),
                stack@,
                (MAX_TYPE_TRAVERSAL_ITERATIONS - iterations) as nat,
                true,
            ),
        decreases MAX_TYPE_TRAVERSAL_ITERATIONS - iterations,
    {
        let ghost pairs = stack@;
        let ghost budget = (MAX_TYPE_TRAVERSAL_ITERATIONS - iterations) as nat;
        match stack.pop() {
            None => {
                return true;
            },
            Some((x, y)) => {
                if iterations >= MAX_TYPE_TRAVERSAL_ITERATIONS {
                    proof {
                        lemma_settled_exhausted(matching(graph), pairs, true);
                    }
                    return false;
                }
                iterations = iterations + 1;
                assert(pairs.last() == (x, y));
                assert(stack@ == pairs.drop_last());
                proof {
                    lemma_settled_step(matching(graph), pairs, budget, true);
                }
                if !push_matching_parts(graph, x, y, &mut stack) {
                    return false;
                }
            },
        }
    }
}

/// `base` is the primitive type that the literal type `literal` belongs to.
pub open spec fn base_of_literal(graph: &TypeGraph, base: TypeId, literal: TypeId) -> bool {
    match (graph.data_of(base), graph.data_of(literal)) {
        (TypeData::String, TypeData::Literal(Literal::String(_))) => true,
        (TypeData::String, TypeData::Literal(Literal::Template(_))) => true,
        (TypeData::Number, TypeData::Literal(Literal::Number(_))) => true,
        (TypeData::Boolean, TypeData::Literal(Literal::Boolean(_))) => true,
        (TypeData::BigInt, TypeData::Literal(Literal::BigInt(_))) => true,
        _ => false,
    }
}

/// Whether `base` is the primitive type that the literal type `literal` belongs to.
pub fn is_base_type_of_literal(graph: &TypeGraph, base: TypeId, literal: TypeId) -> (found: bool)
    requires
        base < graph.size(),
        literal < graph.size(),
    ensures
        found == base_of_literal(graph, base, literal),
{
    match (graph.data(base), graph.data(literal)) {
        (TypeData::String, TypeData::Literal(lit)) => {
            matches!(lit, Literal::String(_) | Literal::Template(_))
        },
        (TypeData::Number, TypeData::Literal(lit)) => matches!(lit, Literal::Number(_)),
        (TypeData::Boolean, TypeData::Literal(lit)) => matches!(lit, Literal::Boolean(_)),
        (TypeData::BigInt, TypeData::Literal(lit)) => matches!(lit, Literal::BigInt(_)),
        _ => false,
    }
}

/// The known constraint of a type parameter.
pub open spec fn constraint_of(graph: &TypeGraph, ty: TypeId) -> Option<TypeId> {
    match graph.data_of(ty) {
        TypeData::Generic { name: _, constraint: Some(constraint) } => graph.resolved(
            ty,
            constraint,
        ),
        _ => None,
    }
}

/// The type reached from a type through at most `steps` constraints.
pub open spec fn generic_chain(graph: &TypeGraph, ty: TypeId, steps: nat) -> TypeId
    decreases steps,
{
    match constraint_of(graph, ty) {
        Some(constraint) => if steps > 0 {
            generic_chain(graph, constraint, (steps - 1) as nat)
        } else {
            ty
        },
        None => ty,
    }
}

/// How many constraints of type parameters are followed.
pub const MAX_GENERIC_STEPS: u8 = 6;

/// The type that a type parameter stands for.
pub open spec fn generic_resolved(graph: &TypeGraph, ty: TypeId) -> TypeId {
    generic_chain(graph, ty, MAX_GENERIC_STEPS as nat)
}

/// The known constraint of a type parameter.
pub fn generic_constraint(graph: &TypeGraph, ty: TypeId) -> (found: Option<TypeId>)
    requires
        graph.well_formed(),
        ty < graph.size(),
    ensures
        found == constraint_of(graph, ty),
        found matches Some(target) ==> target < graph.size(),
{
    match graph.data(ty) {
        TypeData::Generic { constraint: Some(constraint), .. } => graph.resolve(ty, *constraint),
        _ => None,
    }
}

/// Follows generic constraints iteratively: `T extends U extends string` gives `string`.
pub fn resolve_generic_chain(graph: &TypeGraph, ty: TypeId) -> (resolved: TypeId)
    requires
        graph.well_formed(),
        ty < graph.size(),
    ensures
        resolved == generic_resolved(graph, ty),
        resolved < graph.size(),
{
    let mut current: TypeId = ty;
    let mut steps: u8 = 0;
    while steps < MAX_GENERIC_STEPS
        invariant
            graph.well_formed(),
            current < graph.size(),
            steps <= MAX_GENERIC_STEPS,
            generic_resolved(graph, ty) == generic_chain(
                graph,
                current,
                (MAX_GENERIC_STEPS - steps) as nat,
            ),
        decreases MAX_GENERIC_STEPS - steps,
    {
        match generic_constraint(graph, current) {
            Some(constraint) => {
                current = constraint;
                steps = steps + 1;
            },
            None => {
                return current;
            },
        }
    }
    current
}

} // verus!

//! The type graph that the rule reads.
//!
//! Types may refer to each other in cycles, so a type is a position in a table
//! and a reference from one type to another is looked up through the scope of
//! the type that is read.
use vstd::prelude::*;
use vstd::utf8::encode_utf8;

verus! {

/// A type: a position in [`TypeGraph::types`].
pub type TypeId = usize;

/// A reference written inside a type. It has no meaning of its own: see
/// [`TypeGraph::resolve`].
pub type TypeRef = usize;

/// What kind of member an object type holds.
#[derive(Debug)]
pub enum TypeMemberKind {
    CallSignature,
    Constructor,
    Getter(String),
    IndexSignature(TypeRef),
    Named(String),
    NamedOptional(String),
    NamedStatic(String),
}

/// A member of an object type or of an object literal.
#[derive(Debug)]
pub struct TypeMember {
    pub kind: TypeMemberKind,
    pub ty: TypeRef,
}

/// The type of a literal expression.
#[derive(Debug)]
pub enum Literal {
    BigInt(String),
    Boolean(bool),
    Number(String),
    Object(Vec<TypeMember>),
    RegExp { pattern: String, flags: String },
    String(String),
    Template(String),
}

/// A parameter of a function type.
#[derive(Debug)]
pub struct FunctionParameter {
    pub ty: TypeRef,
    pub is_optional: bool,
    pub is_rest: bool,
}

/// What a function type says of the values that it returns.
#[derive(Debug)]
pub enum ReturnType {
    Type(TypeRef),
    /// A type predicate, as in `x is string`. `parameter` is the position of the
    /// parameter that it speaks of, and absent where it speaks of `this`.
    Predicate { parameter: Option<usize>, ty: TypeRef },
    /// An assertion, as in `asserts x is string`, or just `asserts x`.
    Asserts { parameter: Option<usize>, ty: Option<TypeRef> },
}

/// What a type is, as far as the rule tells types apart.
#[derive(Debug)]
pub enum TypeData {
    /// A type that could not be inferred. Nothing is known of it, so it is the
    /// same as no type, not even as another one that could not be inferred.
    Unknown,
    AnyKeyword,
    NeverKeyword,
    ThisKeyword,
    UnknownKeyword,
    VoidKeyword,
    BigInt,
    Boolean,
    Null,
    Number,
    String,
    Undefined,
    Function {
        type_parameters: Vec<TypeRef>,
        parameters: Vec<FunctionParameter>,
        return_type: ReturnType,
    },
    /// A type parameter. The constraint is absent when it is not known.
    Generic { name: String, constraint: Option<TypeRef> },
    InstanceOf { ty: TypeRef, type_parameters: Vec<TypeRef> },
    Intersection { types: Vec<TypeRef> },
    Literal(Literal),
    Object { members: Vec<TypeMember> },
    Tuple { elements: Vec<TypeRef> },
    /// A union, with the variants of nested unions in place of these unions.
    Union { variants: Vec<TypeId> },
    /// Any other type, such as a class. Nothing is known of it but which type it
    /// is, so two such types are the same only if they are one entry of the table.
    Other,
}

/// A type together with the scope that gives its references a meaning.
#[derive(Debug)]
pub struct TypeNode {
    pub scope: usize,
    pub data: TypeData,
}

/// A table of types. `scopes[s][r]` is the type that the reference `r` stands
/// for when it is read in the scope `s`.
#[derive(Debug)]
pub struct TypeGraph {
    pub types: Vec<TypeNode>,
    pub scopes: Vec<Vec<Option<TypeId>>>,
}

/// Every text in memory is at most this long: no allocation is larger than `isize::MAX`.
pub open spec fn text_fits(text: Seq<char>) -> bool {
    encode_utf8(text).len() <= isize::MAX
}

impl Literal {
    /// The text of the literal is one that memory can hold.
    pub open spec fn fits(&self) -> bool {
        match *self {
            Literal::String(text) => text_fits(text@),
            Literal::Number(text) => text_fits(text@),
            _ => true,
        }
    }
}

/// Every variant is a type of a graph of `size` types.
pub open spec fn ids_in_range(ids: Seq<TypeId>, size: nat) -> bool {
    forall|i: int| 0 <= i < ids.len() ==> (#[trigger] ids[i]) < size
}

impl TypeNode {
    /// The scope is one of `scopes` scopes, variants are among `size` types,
    /// and texts fit in memory.
    pub open spec fn well_formed(&self, size: nat, scopes: nat) -> bool {
        &&& self.scope < scopes
        &&& match self.data {
            TypeData::Union { variants } => ids_in_range(variants@, size),
            TypeData::Literal(literal) => literal.fits(),
            _ => true,
        }
    }
}

/// Every reference of the scope that has a target leads to one of `size` types.
pub open spec fn scope_well_formed(table: Seq<Option<TypeId>>, size: nat) -> bool {
    forall|r: int|
        0 <= r < table.len() ==> match #[trigger] table[r] {
            Some(target) => target < size,
            None => true,
        }
}

impl TypeGraph {
    /// The number of types.
    pub open spec fn size(&self) -> nat {
        self.types@.len()
    }

    /// No variant of the type is itself a union.
    pub open spec fn flat(&self, ty: TypeId) -> bool {
        forall|i: int|
            0 <= i < self.variants_of(ty).len() ==> !self.union_type(
                #[trigger] self.variants_of(ty)[i],
            )
    }

    /// Every link of the graph stays within the graph, and unions are flat.
    pub open spec fn well_formed(&self) -> bool {
        &&& forall|ty: TypeId| ty < self.size() ==> #[trigger] self.flat(ty)
        &&& forall|t: int|
            0 <= t < self.types@.len() ==> (#[trigger] self.types@[t]).well_formed(
                self.size(),
                self.scopes@.len(),
            )
        &&& forall|s: int|
            0 <= s < self.scopes@.len() ==> scope_well_formed(
                #[trigger] self.scopes@[s]@,
                self.size(),
            )
    }

    /// What the type is.
    pub open spec fn data_of(&self, ty: TypeId) -> TypeData {
        self.types@[ty as int].data
    }

    /// The type that a reference stands for when it is read from `ty`, if any.
    pub open spec fn resolved(&self, ty: TypeId, reference: TypeRef) -> Option<TypeId> {
        let table = self.scopes@[self.types@[ty as int].scope as int]@;
        if reference < table.len() {
            table[reference as int]
        } else {
            None
        }
    }

    /// The variants of a union, and none for any other type.
    pub open spec fn variants_of(&self, ty: TypeId) -> Seq<TypeId> {
        match self.data_of(ty) {
            TypeData::Union { variants } => variants@,
            _ => Seq::empty(),
        }
    }

    /// The type is a union.
    pub open spec fn union_type(&self, ty: TypeId) -> bool {
        self.data_of(ty) is Union
    }

    /// Whether every link of the graph stays within the graph, no variant of a
    /// union is itself a union, and no text is longer than any text can be.
    pub fn is_well_formed(&self) -> (ok: bool)
        ensures
            ok == self.well_formed(),
    {
        let size: usize = self.types.len();
        let mut t: usize = 0;
        while t < size
            invariant
                size == self.types@.len(),
                t <= size,
                forall|i: int|
                    0 <= i < t ==> (#[trigger] self.types@[i]).well_formed(
                        self.size(),
                        self.scopes@.len(),
                    ),
            decreases size - t,
        {
            if !node_is_well_formed(&self.types[t], size, self.scopes.len()) {
                return false;
            }
            t = t + 1;
        }
        let mut s: usize = 0;
        while s < self.scopes.len()
            invariant
                size == self.types@.len(),
                s <= self.scopes@.len(),
                forall|i: int|
                    0 <= i < s ==> scope_well_formed(#[trigger] self.scopes@[i]@, self.size()),
                forall|i: int|
                    0 <= i < self.types@.len() ==> (#[trigger] self.types@[i]).well_formed(
                        self.size(),
                        self.scopes@.len(),
                    ),
            decreases self.scopes@.len() - s,
        {
            if !scope_is_well_formed(&self.scopes[s], size) {
                return false;
            }
            s = s + 1;
        }
        let mut u: usize = 0;
        while u < size
            invariant
                size == self.types@.len(),
                u <= size,
                forall|ty: TypeId| ty < u ==> #[trigger] self.flat(ty),
                forall|i: int|
                    0 <= i < self.scopes@.len() ==> scope_well_formed(
                        #[trigger] self.scopes@[i]@,
                        self.size(),
                    ),
                forall|i: int|
                    0 <= i < self.types@.len() ==> (#[trigger] self.types@[i]).well_formed(
                        self.size(),
                        self.scopes@.len(),
                    ),
            decreases size - u,
        {
            assert(self.types@[u as int].well_formed(self.size(), self.scopes@.len()));
            if !self.is_flat(u) {
                return false;
            }
            u = u + 1;
        }
        true
    }

    /// Whether no variant of the type is itself a union.
    fn is_flat(&self, ty: TypeId) -> (flat: bool)
        requires
            ty < self.size(),
            ids_in_range(self.variants_of(ty), self.size()),
        ensures
            flat == self.flat(ty),
    {
        if let TypeData::Union { variants } = self.data(ty) {
            let mut i: usize = 0;
            while i < variants.len()
                invariant
                    i <= variants@.len(),
                    variants@ == self.variants_of(ty),
                    ids_in_range(variants@, self.size()),
                    forall|k: int| 0 <= k < i ==> !self.union_type(#[trigger] variants@[k]),
                decreases variants@.len() - i,
            {
                if self.is_union(variants[i]) {
                    assert(self.union_type(self.variants_of(ty)[i as int]));
                    return false;
                }
                i = i + 1;
            }
        }
        true
    }

    /// Builds a graph out of its parts, unless a link leads out of it, a variant
    /// of a union is itself a union, or a text is longer than any text can be.
    pub fn new(types: Vec<TypeNode>, scopes: Vec<Vec<Option<TypeId>>>) -> (graph: Option<TypeGraph>)
        ensures
            graph is Some <==> (TypeGraph { types, scopes }).well_formed(),
            graph matches Some(g) ==> g == (TypeGraph { types, scopes }),
    {
        let graph = TypeGraph { types, scopes };
        if graph.is_well_formed() {
            Some(graph)
        } else {
            None
        }
    }

    /// What the type is.
    pub fn data(&self, ty: TypeId) -> (data: &TypeData)
        requires
            ty < self.size(),
        ensures
            *data == self.data_of(ty),
    {
        &self.types[ty].data
    }

    /// The type that a reference stands for when it is read from `ty`.
    ///
    /// The same reference may stand for different types when it is read from
    /// types of different scopes.
    pub fn resolve(&self, ty: TypeId, reference: TypeRef) -> (target: Option<TypeId>)
        requires
            self.well_formed(),
            ty < self.size(),
        ensures
            target == self.resolved(ty, reference),
            target matches Some(found) ==> found < self.size(),
    {
        let scope: usize = self.types[ty].scope;
        let table = &self.scopes[scope];
        assert(scope_well_formed(self.scopes@[scope as int]@, self.size()));
        if reference < table.len() {
            table[reference]
        } else {
            None
        }
    }

    /// The variants of a union, and none for any other type.
    pub fn flattened_union_variants(&self, ty: TypeId) -> (variants: Vec<TypeId>)
        requires
            self.well_formed(),
            ty < self.size(),
        ensures
            variants@ == self.variants_of(ty),
            ids_in_range(variants@, self.size()),
    {
        let mut found: Vec<TypeId> = Vec::new();
        assert(self.types@[ty as int].well_formed(self.size(), self.scopes@.len()));
        if let TypeData::Union { variants } = self.data(ty) {
            let mut i: usize = 0;
            while i < variants.len()
                invariant
                    i <= variants@.len(),
                    found@ == variants@.take(i as int),
                decreases variants@.len() - i,
            {
                found.push(variants[i]);
                i = i + 1;
                assert(found@ =~= variants@.take(i as int));
            }
            assert(variants@.take(variants@.len() as int) =~= variants@);
        }
        found
    }

    /// Whether the type is a union.
    pub fn is_union(&self, ty: TypeId) -> (union: bool)
        requires
            ty < self.size(),
        ensures
            union == self.union_type(ty),
    {
        matches!(self.data(ty), TypeData::Union { .. })
    }
}

fn node_is_well_formed(node: &TypeNode, size: usize, scopes: usize) -> (ok: bool)
    ensures
        ok == node.well_formed(size as nat, scopes as nat),
{
    if node.scope >= scopes {
        return false;
    }
    match &node.data {
        TypeData::Union { variants } => ids_are_in_range(variants, size),
        TypeData::Literal(Literal::String(text)) => text_is_short(text),
        TypeData::Literal(Literal::Number(text)) => text_is_short(text),
        _ => true,
    }
}

fn text_is_short(text: &String) -> (ok: bool)
    ensures
        ok == text_fits(text@),
{
    text.as_str().as_bytes().len() <= isize::MAX as usize
}

/// Whether every id is one of the first `size` numbers.
pub fn ids_are_in_range(ids: &Vec<TypeId>, size: usize) -> (ok: bool)
    ensures
        ok == ids_in_range(ids@, size as nat),
{
    let mut i: usize = 0;
    while i < ids.len()
        invariant
            i <= ids@.len(),
            forall|j: int| 0 <= j < i ==> (#[trigger] ids@[j]) < size,
        decreases ids@.len() - i,
    {
        if ids[i] >= size {
            return false;
        }
        i = i + 1;
    }
    true
}

fn scope_is_well_formed(table: &Vec<Option<TypeId>>, size: usize) -> (ok: bool)
    ensures
        ok == scope_well_formed(table@, size as nat),
{
    let mut r: usize = 0;
    while r < table.len()
        invariant
            r <= table@.len(),
            forall|i: int|
                0 <= i < r ==> match #[trigger] table@[i] {
                    Some(target) => target < size,
                    None => true,
                },
        decreases table@.len() - r,
    {
        if let Some(target) = table[r] {
            if target >= size {
                return false;
            }
        }
        r = r + 1;
    }
    true
}

} // verus!

//! The arena of structural types.
//!
//! A generation run owns one [`TypeArena`]: a finite graph of structural
//! type nodes addressed by stable integer identifiers. Children are always
//! registered before their parents, so every edge points to a smaller
//! identifier; recursion is expressed only through an explicit
//! [`StructuralType::SelfReference`] back-edge node, never through an
//! unmarked cycle.
//!
//! The arena does not validate its input beyond what
//! [`TypeArena::register`] requires: a malformed graph is a precondition
//! violation on the side of the upstream type-checking collaborator, not a
//! recoverable error.

use vstd::prelude::*;

verus! {

/// Fixed-size scalar kinds. The two floating-point kinds name widths in the
/// target representation; the generator itself never computes with them.
#[derive(Clone, Copy, PartialEq, Eq, Structural)]
pub enum Primitive {
    Unit,
    Bool,
    U8,
    U16,
    U32,
    U64,
    U128,
    I8,
    I16,
    I32,
    I64,
    I128,
    F32,
    F64,
}

/// Mathematical model of a named record field.
pub struct FieldModel {
    pub name: Seq<char>,
    pub ty: int,
}

/// Mathematical model of a tag-union variant: a tag name and the ordered
/// payload types it carries.
pub struct VariantModel {
    pub name: Seq<char>,
    pub payloads: Seq<int>,
}

/// Mathematical model of one node in the type graph.
pub enum TypeModel {
    Primitive(Primitive),
    Text,
    Sequence(int),
    Record(Seq<FieldModel>),
    TagUnion(Seq<VariantModel>),
    SelfReference,
}

/// A named record field, referring to its type by identifier.
pub struct Field {
    pub name: String,
    pub ty: usize,
}

/// A tag-union variant: a tag name plus the ordered list of payload types.
pub struct Variant {
    pub name: String,
    pub payloads: Vec<usize>,
}

/// One node in the type graph.
///
/// `SelfReference` stands for a back-edge to the enclosing tag union under
/// definition; it may appear only among that union's own payload types.
pub enum StructuralType {
    /// A fixed-size scalar.
    Primitive(Primitive),
    /// The owned text handle: a pointer/length/capacity triple.
    Text,
    /// The owned homogeneous sequence handle over the given element type.
    Sequence(usize),
    /// A fixed set of named fields, each present in every value.
    Record(Vec<Field>),
    /// A closed set of named variants, each carrying zero or more payloads.
    TagUnion(Vec<Variant>),
    /// A back-edge to the enclosing tag union being defined.
    SelfReference,
}

impl View for Field {
    type V = FieldModel;

    open spec fn view(&self) -> FieldModel {
        FieldModel { name: self.name@, ty: self.ty as int }
    }
}

impl View for Variant {
    type V = VariantModel;

    open spec fn view(&self) -> VariantModel {
        VariantModel {
            name: self.name@,
            payloads: self.payloads@.map_values(|p: usize| p as int),
        }
    }
}

impl View for StructuralType {
    type V = TypeModel;

    open spec fn view(&self) -> TypeModel {
        match self {
            StructuralType::Primitive(p) => TypeModel::Primitive(*p),
            StructuralType::Text => TypeModel::Text,
            StructuralType::Sequence(e) => TypeModel::Sequence(*e as int),
            StructuralType::Record(fields) => TypeModel::Record(
                fields@.map_values(|f: Field| f@),
            ),
            StructuralType::TagUnion(variants) => TypeModel::TagUnion(
                variants@.map_values(|v: Variant| v@),
            ),
            StructuralType::SelfReference => TypeModel::SelfReference,
        }
    }
}

/// Whether identifier `t` names a registered `SelfReference` node.
pub open spec fn is_self_ref(g: Seq<TypeModel>, t: int) -> bool {
    0 <= t < g.len() && g[t] is SelfReference
}

/// Whether one of the variant's payload types is a self-reference.
pub open spec fn variant_mentions_self(g: Seq<TypeModel>, v: VariantModel) -> bool {
    exists|k: int| 0 <= k < v.payloads.len() && is_self_ref(g, #[trigger] v.payloads[k])
}

/// Whether the tag union with these variants recurses into itself.
pub open spec fn union_is_recursive(g: Seq<TypeModel>, variants: Seq<VariantModel>) -> bool {
    exists|j: int| 0 <= j < variants.len() && variant_mentions_self(g, #[trigger] variants[j])
}

/// The self-recursive form that admits the null-discriminant representation:
/// exactly one terminal variant with no payload, and one variant that
/// carries exactly one non-recursive payload next to its self-references.
pub open spec fn recursive_form_ok(g: Seq<TypeModel>, variants: Seq<VariantModel>) -> bool {
    &&& variants.len() == 2
    &&& exists|e: int|
        0 <= e < 2 && (#[trigger] variants[e].payloads.len()) == 0 && {
            let p = variants[1 - e].payloads;
            exists|k: int|
                0 <= k < p.len() && !is_self_ref(g, #[trigger] p[k]) && forall|m: int|
                    0 <= m < p.len() && m != k ==> is_self_ref(g, p[m])
        }
}

/// Well-formedness of the node at identifier `i`, relative to the nodes
/// registered before it. Every edge points to a smaller identifier; field
/// and tag names are unique; a record never holds a bare self-reference;
/// a multi-variant union carries at most one payload per variant; and a
/// self-recursive union has the exact shape of `recursive_form_ok`.
pub open spec fn node_wf(g: Seq<TypeModel>, i: int) -> bool {
    0 <= i < g.len() && match g[i] {
        TypeModel::Primitive(_) => true,
        TypeModel::Text => true,
        TypeModel::SelfReference => true,
        TypeModel::Sequence(e) => 0 <= e < i && !(g[e] is SelfReference),
        TypeModel::Record(fields) => {
            &&& forall|j: int|
                0 <= j < fields.len() ==> 0 <= (#[trigger] fields[j]).ty < i && !(g[fields[j].ty]
                    is SelfReference)
            &&& forall|j: int, k: int|
                0 <= j < k < fields.len() ==> (#[trigger] fields[j]).name != (
                #[trigger] fields[k]).name
        },
        TypeModel::TagUnion(variants) => {
            &&& 1 <= variants.len() <= 256
            &&& forall|j: int, k: int|
                0 <= j < variants.len() && 0 <= k < (#[trigger] variants[j]).payloads.len()
                    ==> 0 <= #[trigger] variants[j].payloads[k] < i
            &&& forall|j: int, k: int|
                0 <= j < k < variants.len() ==> (#[trigger] variants[j]).name != (
                #[trigger] variants[k]).name
            &&& if union_is_recursive(g, variants) {
                recursive_form_ok(g, variants)
            } else {
                variants.len() >= 2 ==> forall|j: int|
                    0 <= j < variants.len() ==> (#[trigger] variants[j]).payloads.len() <= 1
            }
        },
    }
}

/// Size in bytes of a fixed-size scalar in the target representation.
pub open spec fn primitive_size(p: Primitive) -> nat {
    match p {
        Primitive::Unit => 0,
        Primitive::Bool => 1,
        Primitive::U8 => 1,
        Primitive::U16 => 2,
        Primitive::U32 => 4,
        Primitive::U64 => 8,
        Primitive::U128 => 16,
        Primitive::I8 => 1,
        Primitive::I16 => 2,
        Primitive::I32 => 4,
        Primitive::I64 => 8,
        Primitive::I128 => 16,
        Primitive::F32 => 4,
        Primitive::F64 => 8,
    }
}

/// Physical size in bytes of the type at identifier `i`, for a 64-bit
/// target: the sort key for slot ordering. Owned text and sequence handles
/// are a pointer/length/capacity triple; a pointer is one word; a record is
/// the sum of its field sizes; a tag union is sized by its strategy.
pub open spec fn type_size(g: Seq<TypeModel>, i: int) -> nat
    decreases i, 4int, 0int,
{
    if 0 <= i < g.len() {
        match g[i] {
            TypeModel::Primitive(p) => primitive_size(p),
            TypeModel::Text => 24,
            TypeModel::Sequence(_) => 24,
            TypeModel::SelfReference => 8,
            TypeModel::Record(fields) => payload_sizes_sum(
                g,
                fields.map_values(|f: FieldModel| f.ty),
                i,
            ),
            TypeModel::TagUnion(variants) => union_size(g, variants, i),
        }
    } else {
        0
    }
}

/// Like `variant_mentions_self`, but only counting payload identifiers
/// below `bound`; under `node_wf` the two coincide for the union's own
/// variants.
pub open spec fn variant_self_below(g: Seq<TypeModel>, v: VariantModel, bound: int) -> bool {
    exists|k: int|
        0 <= k < v.payloads.len() && (#[trigger] v.payloads[k]) < bound && is_self_ref(
            g,
            v.payloads[k],
        )
}

/// Like `union_is_recursive`, but only counting payload identifiers below
/// `bound`.
pub open spec fn union_recursive_below(
    g: Seq<TypeModel>,
    variants: Seq<VariantModel>,
    bound: int,
) -> bool {
    exists|j: int| 0 <= j < variants.len() && variant_self_below(g, #[trigger] variants[j], bound)
}

/// Size of a tag union, by representation strategy: one owning pointer when
/// self-recursive, one discriminant byte for a plain enumeration, the flat
/// payload sum for a single variant, and the largest payload plus a
/// discriminant byte otherwise.
pub open spec fn union_size(g: Seq<TypeModel>, variants: Seq<VariantModel>, bound: int) -> nat
    decreases bound, 3int, 0int,
{
    if union_recursive_below(g, variants, bound) {
        8
    } else if forall|j: int| 0 <= j < variants.len() ==> (#[trigger] variants[j]).payloads.len() == 0 {
        1
    } else if variants.len() == 1 {
        payload_sizes_sum(g, variants[0].payloads, bound)
    } else {
        1 + variants_max_payload(g, variants, bound)
    }
}

/// The largest payload sum among the variants.
pub open spec fn variants_max_payload(
    g: Seq<TypeModel>,
    variants: Seq<VariantModel>,
    bound: int,
) -> nat
    decreases bound, 2int, variants.len(),
{
    if variants.len() == 0 {
        0
    } else {
        let head = payload_sizes_sum(g, variants[0].payloads, bound);
        let rest = variants_max_payload(g, variants.drop_first(), bound);
        if head >= rest {
            head
        } else {
            rest
        }
    }
}

/// Sum of the sizes of the listed types, all registered before `bound`.
pub open spec fn payload_sizes_sum(g: Seq<TypeModel>, tys: Seq<int>, bound: int) -> nat
    decreases bound, 1int, tys.len(),
{
    if tys.len() == 0 {
        0
    } else {
        (if 0 <= tys[0] < bound {
            type_size(g, tys[0])
        } else {
            0
        }) + payload_sizes_sum(g, tys.drop_first(), bound)
    }
}

/// Well-formedness of the whole graph: every node is well-formed and no
/// type outgrows the 32-bit size bound that keeps slot arithmetic exact.
pub open spec fn graph_wf(g: Seq<TypeModel>) -> bool {
    &&& forall|i: int| 0 <= i < g.len() ==> #[trigger] node_wf(g, i)
    &&& forall|i: int| 0 <= i < g.len() ==> #[trigger] type_size(g, i) <= 0xFFFF_FFFF
}

/// The model of a possibly absent source alias.
pub open spec fn opt_name_model(o: &Option<String>) -> Option<Seq<char>> {
    match o {
        Some(s) => Some(s@),
        None => None,
    }
}

/// Owns the graph of discovered structural types and assigns stable
/// identifiers: the identifier of a node is its registration rank. Beside
/// each node the arena remembers the alias the type was declared under in
/// source, if it had one; anonymous types are named later, by traversal
/// order, not here.
pub struct TypeArena {
    nodes: Vec<StructuralType>,
    aliases: Vec<Option<String>>,
}

impl View for TypeArena {
    type V = Seq<TypeModel>;

    closed spec fn view(&self) -> Seq<TypeModel> {
        self.nodes@.map_values(|n: StructuralType| n@)
    }
}

proof fn lemma_type_size_push(g: Seq<TypeModel>, x: TypeModel, i: int)
    requires
        0 <= i < g.len(),
    ensures
        type_size(g.push(x), i) == type_size(g, i),
    decreases i, 4int, 0int,
{
    match g[i] {
        TypeModel::Record(fields) => {
            lemma_payload_sizes_sum_push(g, x, fields.map_values(|f: FieldModel| f.ty), i);
        },
        TypeModel::TagUnion(variants) => {
            lemma_union_size_push(g, x, variants, i);
        },
        _ => {},
    }
}

proof fn lemma_union_size_push(g: Seq<TypeModel>, x: TypeModel, variants: Seq<VariantModel>, bound: int)
    requires
        0 <= bound < g.len(),
    ensures
        union_size(g.push(x), variants, bound) == union_size(g, variants, bound),
    decreases bound, 3int, 0int,
{
    let h = g.push(x);
    assert forall|j: int| 0 <= j < variants.len() implies (variant_self_below(
        h,
        #[trigger] variants[j],
        bound,
    ) == variant_self_below(g, variants[j], bound)) by {
        let v = variants[j];
        assert forall|k: int|
            0 <= k < v.payloads.len() && (#[trigger] v.payloads[k]) < bound implies (is_self_ref(
            h,
            v.payloads[k],
        ) == is_self_ref(g, v.payloads[k])) by {}
    }
    assert(union_recursive_below(h, variants, bound) == union_recursive_below(g, variants, bound));
    if union_recursive_below(g, variants, bound) {
    } else if forall|j: int| 0 <= j < variants.len() ==> (#[trigger] variants[j]).payloads.len() == 0 {
    } else if variants.len() == 1 {
        lemma_payload_sizes_sum_push(g, x, variants[0].payloads, bound);
    } else {
        lemma_variants_max_payload_push(g, x, variants, bound);
    }
}

proof fn lemma_variants_max_payload_push(
    g: Seq<TypeModel>,
    x: TypeModel,
    variants: Seq<VariantModel>,
    bound: int,
)
    requires
        0 <= bound < g.len(),
    ensures
        variants_max_payload(g.push(x), variants, bound) == variants_max_payload(
            g,
            variants,
            bound,
        ),
    decreases bound, 2int, variants.len(),
{
    if variants.len() == 0 {
    } else {
        lemma_payload_sizes_sum_push(g, x, variants[0].payloads, bound);
        lemma_variants_max_payload_push(g, x, variants.drop_first(), bound);
    }
}

proof fn lemma_payload_sizes_sum_push(g: Seq<TypeModel>, x: TypeModel, tys: Seq<int>, bound: int)
    requires
        0 <= bound < g.len(),
    ensures
        payload_sizes_sum(g.push(x), tys, bound) == payload_sizes_sum(g, tys, bound),
    decreases bound, 1int, tys.len(),
{
    if tys.len() == 0 {
    } else {
        if 0 <= tys[0] < bound {
            lemma_type_size_push(g, x, tys[0]);
        }
        lemma_payload_sizes_sum_push(g, x, tys.drop_first(), bound);
    }
}

proof fn lemma_node_wf_push(g: Seq<TypeModel>, x: TypeModel, i: int)
    requires
        node_wf(g, i),
    ensures
        node_wf(g.push(x), i),
{
    let h = g.push(x);
    match g[i] {
        TypeModel::TagUnion(variants) => {
            assert forall|j: int| 0 <= j < variants.len() implies (variant_mentions_self(
                h,
                #[trigger] variants[j],
            ) == variant_mentions_self(g, variants[j])) by {
                let v = variants[j];
                assert forall|k: int|
                    0 <= k < v.payloads.len() implies (is_self_ref(h, #[trigger] v.payloads[k])
                    == is_self_ref(g, v.payloads[k])) by {
                    assert(0 <= v.payloads[k] < i);
                }
            }
            assert(union_is_recursive(h, variants) == union_is_recursive(g, variants));
            if union_is_recursive(g, variants) {
                let e = choose|e: int|
                    0 <= e < 2 && (#[trigger] variants[e].payloads.len()) == 0 && {
                        let p = variants[1 - e].payloads;
                        exists|k: int|
                            0 <= k < p.len() && !is_self_ref(g, #[trigger] p[k]) && forall|m: int|
                                0 <= m < p.len() && m != k ==> is_self_ref(g, p[m])
                    };
                let p = variants[1 - e].payloads;
                let k = choose|k: int|
                    0 <= k < p.len() && !is_self_ref(g, #[trigger] p[k]) && forall|m: int|
                        0 <= m < p.len() && m != k ==> is_self_ref(g, p[m]);
                assert(0 <= k < p.len() && !is_self_ref(h, p[k]) && forall|m: int|
                    0 <= m < p.len() && m != k ==> is_self_ref(h, p[m]));
                assert(recursive_form_ok(h, variants));
            }
        },
        _ => {},
    }
}

impl TypeArena {
    /// Each node carries exactly one alias slot; `new` establishes this and
    /// `register` preserves it.
    pub open spec fn alias_aligned(&self) -> bool {
        self@.len() == self.alias_seq().len()
    }

    /// The source aliases, one slot per registered type.
    pub closed spec fn alias_seq(&self) -> Seq<Option<Seq<char>>> {
        self.aliases@.map_values(|a: Option<String>| opt_name_model(&a))
    }

    /// A fresh arena holding no types.
    pub fn new() -> (arena: TypeArena)
        ensures
            arena@ == Seq::<TypeModel>::empty(),
            arena.alias_seq() == Seq::<Option<Seq<char>>>::empty(),
            arena.alias_aligned(),
            graph_wf(arena@),
    {
        let arena = TypeArena { nodes: Vec::new(), aliases: Vec::new() };
        proof {
            assert(arena@ =~= Seq::<TypeModel>::empty());
            assert(arena.alias_seq() =~= Seq::<Option<Seq<char>>>::empty());
        }
        arena
    }

    /// How many types have been registered.
    pub fn len(&self) -> (n: usize)
        ensures
            n == self@.len(),
    {
        self.nodes.len()
    }

    /// Registers one more type and hands back its stable identifier.
    ///
    /// The caller — the upstream type-checking collaborator — owes a node
    /// whose edges all point to already-registered types and whose shape
    /// meets `node_wf`; anything else is a precondition violation, not a
    /// handled error.
    pub fn register(&mut self, t: StructuralType, alias: Option<String>) -> (id: usize)
        requires
            graph_wf(old(self)@),
            node_wf(old(self)@.push(t@), old(self)@.len() as int),
            type_size(old(self)@.push(t@), old(self)@.len() as int) <= 0xFFFF_FFFF,
        ensures
            final(self)@ == old(self)@.push(t@),
            final(self).alias_seq() == old(self).alias_seq().push(opt_name_model(&alias)),
            id == old(self)@.len(),
            graph_wf(final(self)@),
            old(self).alias_aligned() ==> final(self).alias_aligned(),
    {
        let ghost g = self@;
        let ghost m = t@;
        let ghost al = self.alias_seq();
        let id = self.nodes.len();
        self.nodes.push(t);
        self.aliases.push(alias);
        proof {
            assert(self.alias_seq() =~= al.push(opt_name_model(&alias)));
            assert(self@ =~= g.push(m));
            assert forall|i: int| 0 <= i < self@.len() implies #[trigger] node_wf(self@, i) by {
                if i < g.len() {
                    lemma_node_wf_push(g, m, i);
                }
            }
            assert forall|i: int|
                0 <= i < self@.len() implies #[trigger] type_size(self@, i) <= 0xFFFF_FFFF by {
                if i < g.len() {
                    lemma_type_size_push(g, m, i);
                }
            }
        }
        id
    }

    /// The alias the type was declared under in source, if any.
    pub fn alias_of(&self, id: usize) -> (a: &Option<String>)
        requires
            self.alias_aligned(),
            id < self@.len(),
        ensures
            opt_name_model(a) == self.alias_seq()[id as int],
    {
        &self.aliases[id]
    }

    /// A read-only view of the node registered under `id`.
    pub fn resolve(&self, id: usize) -> (t: &StructuralType)
        requires
            id < self@.len(),
        ensures
            t@ == self@[id as int],
    {
        &self.nodes[id]
    }
}

} // verus!
